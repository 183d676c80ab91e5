use texlab::analysis::LinkKind;
use texlab::document::{Language, Owner, TextChange};
use texlab::project::{candidates_for, listed, DocumentLink};
use texlab::text::{Position, PositionRange};
use texlab::workspace::Workspace;

fn uri(name: &str) -> Vec<u8> {
    format!("/home/user/{}", name).into_bytes()
}

fn open(workspace: &mut Workspace, name: &str, text: &str, owner: Owner) {
    let language = Language::from_path(name.as_bytes()).unwrap_or(Language::Tex);
    workspace.open(uri(name), text.as_bytes().to_vec(), language, owner);
}

fn paths(names: &[&str]) -> Vec<Vec<u8>> {
    names.iter().map(|n| n.as_bytes().to_vec()).collect()
}

#[test]
fn candidates_in_search_order() {
    let roots = paths(&["/root", "/other/"]);
    assert_eq!(
        candidates_for(b"/home/user/main.tex", &Vec::new(), &roots, b"chap1", LinkKind::Latex),
        paths(&[
            "/home/user/chap1",
            "/root/chap1",
            "/other/chap1",
            "/home/user/chap1.tex",
            "/root/chap1.tex",
            "/other/chap1.tex",
        ])
    );
    assert_eq!(
        candidates_for(b"/home/user/main.tex", &Vec::new(), &roots, b"sub/refs.bib", LinkKind::Bibliography),
        paths(&["/home/user/sub/refs.bib", "/root/sub/refs.bib", "/other/sub/refs.bib"])
    );
    assert_eq!(
        candidates_for(b"/home/user/main.tex", &Vec::new(), &Vec::new(), b"refs", LinkKind::Bibliography),
        paths(&["/home/user/refs", "/home/user/refs.bib"])
    );
}

#[test]
fn candidates_of_packages_classes_and_graphics() {
    let none = Vec::new();
    assert_eq!(
        candidates_for(b"/p/main.tex", &Vec::new(), &none, b"amsmath", LinkKind::Package),
        paths(&["/p/amsmath.sty"])
    );
    assert_eq!(
        candidates_for(b"/p/main.tex", &Vec::new(), &none, b"article", LinkKind::Class),
        paths(&["/p/article.cls"])
    );
    assert_eq!(
        candidates_for(b"/p/main.tex", &Vec::new(), &none, b"fig", LinkKind::Graphic),
        paths(&["/p/fig"])
    );
}

#[test]
fn absolute_paths_are_used_directly() {
    let roots = paths(&["/root/"]);
    assert_eq!(
        candidates_for(b"/home/user/main.tex", &Vec::new(), &roots, b"/abs/chap", LinkKind::Latex),
        paths(&["/abs/chap", "/abs/chap.tex"])
    );
    assert_eq!(
        candidates_for(b"main.tex", &Vec::new(), &Vec::new(), b"chap.tex", LinkKind::Latex),
        paths(&["chap.tex"])
    );
}

#[test]
fn root_and_related_of_main_with_input() {
    let mut workspace = Workspace::new(Vec::new());
    open(&mut workspace, "main.tex", "\\documentclass{article}\\input{chap1}", Owner::Client);
    open(&mut workspace, "chap1.tex", "Chapter", Owner::Server);
    let main = workspace.lookup(&uri("main.tex")).unwrap();
    let chap1 = workspace.lookup(&uri("chap1.tex")).unwrap();
    assert_eq!(workspace.root(chap1), main);
    assert_eq!(workspace.root(main), main);
    assert_eq!(workspace.related(chap1), vec![main, chap1]);
    assert_eq!(workspace.related(main), vec![main, chap1]);
    assert_eq!(workspace.targets(main), vec![chap1]);
    assert_eq!(workspace.targets(chap1), Vec::<usize>::new());
}

#[test]
fn bibliography_created_later_joins_the_project() {
    let mut workspace = Workspace::new(Vec::new());
    open(&mut workspace, "main.tex", "\\bibliography{refs}\\cite{knuth}", Owner::Client);
    let main = workspace.lookup(&uri("main.tex")).unwrap();
    assert_eq!(workspace.related(main), vec![main]);
    assert_eq!(workspace.discover(&Vec::new()), vec![uri("refs"), uri("refs.bib")]);
    let requests = workspace
        .handle_file_event(texlab::workspace::FileEventKind::Create, &vec![uri("refs.bib")]);
    assert_eq!(requests.len(), 1);
    assert_eq!(requests[0].path, uri("refs.bib"));
    assert_eq!(requests[0].language, Language::Bib);
    workspace.open(
        uri("refs.bib"),
        b"@book{knuth, title = {The Book}}".to_vec(),
        requests[0].language,
        Owner::Server,
    );
    let refs = workspace.lookup(&uri("refs.bib")).unwrap();
    assert_eq!(workspace.related(main), vec![main, refs]);
    assert_eq!(workspace.root(refs), main);
    let text = workspace.document(main).text().clone();
    let keys: Vec<&[u8]> = workspace
        .document(main)
        .analysis()
        .citations
        .iter()
        .map(|span| &text[span.start..span.end])
        .collect();
    assert_eq!(keys, vec![b"knuth"]);
    let bib = workspace.document(refs);
    let entry = texlab::citation::find_entry(bib.text(), bib.entries(), b"knuth");
    assert!(entry.is_some());
    assert!(workspace.discover(&Vec::new()).is_empty());
}

#[test]
fn removing_the_input_splits_the_project() {
    let mut workspace = Workspace::new(Vec::new());
    open(&mut workspace, "main.tex", "\\documentclass{article}\\input{chap1}", Owner::Client);
    open(&mut workspace, "chap1.tex", "Chapter", Owner::Server);
    let main = workspace.lookup(&uri("main.tex")).unwrap();
    let chap1 = workspace.lookup(&uri("chap1.tex")).unwrap();
    assert_eq!(workspace.related(main), vec![main, chap1]);
    workspace.edit(
        &uri("main.tex"),
        &vec![TextChange { range: None, text: b"\\documentclass{article}".to_vec() }],
    );
    assert_eq!(workspace.related(main), vec![main]);
    assert_eq!(workspace.related(chap1), vec![chap1]);
    assert_eq!(workspace.lookup(&uri("chap1.tex")), Some(chap1));
    assert_eq!(workspace.document(chap1).owner(), Owner::Server);
    assert_eq!(workspace.document(chap1).text().as_slice(), b"Chapter");
}

#[test]
fn related_is_an_equivalence_on_a_workspace_with_cycles() {
    let mut workspace = Workspace::new(Vec::new());
    open(&mut workspace, "a.tex", "\\input{b}", Owner::Client);
    open(&mut workspace, "b.tex", "\\input{c}\\input{a}", Owner::Client);
    open(&mut workspace, "c.tex", "\\input{a}\\input{c}", Owner::Client);
    open(&mut workspace, "x.tex", "\\input{y}", Owner::Client);
    open(&mut workspace, "y.tex", "", Owner::Client);
    open(&mut workspace, "alone.tex", "\\input{missing}", Owner::Client);
    let count = workspace.len();
    let related: Vec<Vec<usize>> = (0..count).map(|i| workspace.related(i)).collect();
    assert_eq!(related[0], vec![0, 1, 2]);
    assert_eq!(related[3], vec![3, 4]);
    assert_eq!(related[5], vec![5]);
    for a in 0..count {
        assert!(related[a].contains(&a));
        for b in 0..count {
            assert_eq!(related[a].contains(&b), related[b].contains(&a));
            for c in 0..count {
                if related[a].contains(&b) && related[b].contains(&c) {
                    assert!(related[a].contains(&c));
                }
            }
        }
    }
}

#[test]
fn root_belongs_to_the_project() {
    let mut workspace = Workspace::new(Vec::new());
    open(&mut workspace, "a.tex", "\\input{b}", Owner::Client);
    open(&mut workspace, "b.tex", "\\input{a}", Owner::Client);
    open(&mut workspace, "m.tex", "\\input{n}\\input{o}", Owner::Client);
    open(&mut workspace, "n.tex", "", Owner::Client);
    open(&mut workspace, "o.tex", "", Owner::Client);
    open(&mut workspace, "single.tex", "", Owner::Client);
    for i in 0..workspace.len() {
        let root = workspace.root(i);
        assert!(workspace.related(i).contains(&root));
    }
    assert_eq!(workspace.root(3), 2);
    assert_eq!(workspace.root(4), 2);
    assert_eq!(workspace.root(5), 5);
}

#[test]
fn root_prefers_the_earliest_document_class_when_no_single_parentless_member() {
    let mut workspace = Workspace::new(Vec::new());
    open(&mut workspace, "a.tex", "\\input{b}", Owner::Client);
    open(&mut workspace, "b.tex", "text text \\documentclass{book}\\input{a}", Owner::Client);
    open(&mut workspace, "c.tex", "\\documentclass{article}\\input{a}\\input{d}", Owner::Client);
    open(&mut workspace, "d.tex", "\\input{c}", Owner::Client);
    for i in 0..4 {
        assert_eq!(workspace.root(i), 2);
    }
}

#[test]
fn root_falls_back_to_the_document_itself() {
    let mut workspace = Workspace::new(Vec::new());
    open(&mut workspace, "a.tex", "\\input{b}", Owner::Client);
    open(&mut workspace, "b.tex", "\\input{a}", Owner::Client);
    assert_eq!(workspace.root(0), 0);
    assert_eq!(workspace.root(1), 1);
}

#[test]
fn two_parentless_members_are_no_single_root() {
    let mut workspace = Workspace::new(Vec::new());
    open(&mut workspace, "a.tex", "\\input{shared}", Owner::Client);
    open(&mut workspace, "b.tex", "\\documentclass{article}\\input{shared}", Owner::Client);
    open(&mut workspace, "shared.tex", "", Owner::Client);
    assert_eq!(workspace.root(2), 1);
    assert_eq!(workspace.root(0), 1);
}

#[test]
fn includes_resolve_through_root_directories() {
    let mut workspace = Workspace::new(vec![b"/lib".to_vec()]);
    open(&mut workspace, "main.tex", "\\input{common}\\usepackage{mine}", Owner::Client);
    workspace.open(b"/lib/common.tex".to_vec(), b"".to_vec(), Language::Tex, Owner::Server);
    workspace.open(b"/lib/mine.sty".to_vec(), b"".to_vec(), Language::Tex, Owner::Server);
    assert_eq!(workspace.targets(0), vec![1, 2]);
    assert_eq!(workspace.related(1), vec![0, 1, 2]);
    let link = workspace.document(0).links()[0];
    assert_eq!(workspace.resolve(0, &link), Some(1));
}

#[test]
fn the_document_directory_wins_over_root_directories() {
    let mut workspace = Workspace::new(vec![b"/lib".to_vec()]);
    workspace.open(b"/lib/common.tex".to_vec(), b"".to_vec(), Language::Tex, Owner::Server);
    open(&mut workspace, "main.tex", "\\input{common}", Owner::Client);
    open(&mut workspace, "common.tex", "", Owner::Server);
    assert_eq!(workspace.targets(1), vec![2]);
}

#[test]
fn discovery_asks_once_for_each_missing_file() {
    let mut workspace = Workspace::new(vec![b"/lib/".to_vec()]);
    open(&mut workspace, "main.tex", "\\input{a}\\input{a}\\input{b.tex}\\input{held}", Owner::Client);
    open(&mut workspace, "held.tex", "\\input{a}", Owner::Server);
    let first = workspace.discover(&Vec::new());
    assert_eq!(
        first,
        vec![
            uri("a"),
            b"/lib/a".to_vec(),
            uri("a.tex"),
            b"/lib/a.tex".to_vec(),
            uri("b.tex"),
            b"/lib/b.tex".to_vec(),
        ]
    );
    for path in &first {
        assert!(workspace.lookup(path).is_none());
    }
    assert!(workspace.discover(&first).is_empty());
    let mut attempted = first.clone();
    attempted.retain(|p| p != &uri("a.tex"));
    assert_eq!(workspace.discover(&attempted), vec![uri("a.tex")]);
    open(&mut workspace, "a.tex", "\\input{deeper}", Owner::Server);
    let second = workspace.discover(&attempted);
    assert_eq!(
        second,
        vec![uri("deeper"), b"/lib/deeper".to_vec(), uri("deeper.tex"), b"/lib/deeper.tex".to_vec()]
    );
    for path in &second {
        assert!(!listed(&attempted, path));
    }
}

#[test]
fn dangling_includes_stay_in_the_analysis() {
    let mut workspace = Workspace::new(Vec::new());
    open(&mut workspace, "main.tex", "\\input{missing}", Owner::Client);
    assert_eq!(workspace.document(0).links().len(), 1);
    assert_eq!(workspace.targets(0), Vec::<usize>::new());
    assert_eq!(workspace.edges(), vec![Vec::<usize>::new()]);
    let link = workspace.document(0).links()[0];
    assert_eq!(workspace.resolve(0, &link), None);
}

#[test]
fn distribution_files_come_after_the_document_directory() {
    let distro = vec![
        (b"article.cls".to_vec(), b"/tex/latex/base/article.cls".to_vec()),
        (b"amsmath.sty".to_vec(), b"/tex/latex/ams/amsmath.sty".to_vec()),
        (b"article.cls".to_vec(), b"/tex/other/article.cls".to_vec()),
    ];
    let roots = paths(&["/root/"]);
    assert_eq!(
        candidates_for(b"/p/main.tex", &distro, &roots, b"article", LinkKind::Class),
        paths(&[
            "/p/article.cls",
            "/tex/latex/base/article.cls",
            "/tex/other/article.cls",
            "/root/article.cls",
        ])
    );
    assert_eq!(
        candidates_for(b"/p/main.tex", &distro, &roots, b"/abs/x", LinkKind::Class),
        paths(&["/abs/x.cls"])
    );
    let mut workspace = Workspace::new(Vec::new());
    open(&mut workspace, "main.tex", "\\usepackage{amsmath}", Owner::Client);
    workspace.open(b"/tex/latex/ams/amsmath.sty".to_vec(), Vec::new(), Language::Tex, Owner::Server);
    assert_eq!(workspace.targets(0), Vec::<usize>::new());
    workspace.set_distro(distro);
    assert_eq!(workspace.revision(), 3);
    assert_eq!(workspace.targets(0), vec![1]);
    assert_eq!(workspace.related(1), vec![0, 1]);
}

#[test]
fn candidates_are_in_normal_form() {
    assert_eq!(
        candidates_for(b"file:///p/main.tex", &Vec::new(), &paths(&["FILE:///r/"]), b"a%2fb/", LinkKind::Graphic),
        paths(&["file:///p/a%2Fb", "file:///r/a%2Fb"])
    );
}

#[test]
fn kept_graph_is_current_until_a_text_changes() {
    let mut workspace = Workspace::new(Vec::new());
    open(&mut workspace, "main.tex", "\\documentclass{article}\\input{chap1}", Owner::Client);
    open(&mut workspace, "chap1.tex", "Chapter", Owner::Server);
    assert!(!workspace.graph_is_current());
    assert_eq!(workspace.related(1), vec![0, 1]);
    workspace.refresh();
    assert!(workspace.graph_is_current());
    assert_eq!(workspace.revision(), 2);
    assert_eq!(workspace.related(1), vec![0, 1]);
    assert_eq!(workspace.root(1), 0);
    workspace.set_cursor(&uri("main.tex"), 3);
    workspace.set_owner(&uri("chap1.tex"), Owner::Client);
    assert!(workspace.graph_is_current());
    let snapshot = workspace.snapshot();
    assert!(snapshot.graph_is_current());
    workspace.edit(&uri("main.tex"), &vec![TextChange { range: None, text: b"alone".to_vec() }]);
    assert!(!workspace.graph_is_current());
    assert_eq!(workspace.related(1), vec![1]);
    assert_eq!(workspace.root(1), 1);
    assert_eq!(snapshot.related(1), vec![0, 1]);
    assert_eq!(snapshot.root(1), 0);
    workspace.refresh();
    assert!(workspace.graph_is_current());
    assert_eq!(workspace.related(0), vec![0]);
    workspace.set_roots(vec![b"/x/".to_vec()]);
    assert!(!workspace.graph_is_current());
    workspace.refresh();
    assert!(!workspace.remove(&uri("chap1.tex")));
    assert!(workspace.graph_is_current());
    workspace.set_owner(&uri("chap1.tex"), Owner::Server);
    assert!(workspace.remove(&uri("chap1.tex")));
    assert!(!workspace.graph_is_current());
    workspace.refresh();
    open(&mut workspace, "new.tex", "", Owner::Client);
    assert!(!workspace.graph_is_current());
    assert!(!Workspace::new(Vec::new()).graph_is_current());
}

#[test]
fn document_links_lead_to_held_documents() {
    let mut workspace = Workspace::new(Vec::new());
    open(&mut workspace, "main.tex", "\\input{missing}\n\\input{chap1}\\bibliography{refs}", Owner::Client);
    open(&mut workspace, "refs.bib", "", Owner::Server);
    open(&mut workspace, "chap1.tex", "", Owner::Server);
    let at = |line, character| Position { line, character };
    assert_eq!(
        workspace.document_links(0),
        vec![
            DocumentLink { range: PositionRange { start: at(1, 7), end: at(1, 12) }, target: 2 },
            DocumentLink { range: PositionRange { start: at(1, 27), end: at(1, 31) }, target: 1 },
        ]
    );
    assert_eq!(workspace.document_links(1), Vec::new());
}
