use texlab::completion::{
    complete, completion_resolve, context, CompletionItemData, CompletionKind, Documentation,
    Resolved, COMPLETION_LIMIT,
};
use texlab::text::Position;
use texlab::components::{
    package_names_for, Component, ComponentDatabase, ComponentMetadata, MarkupKind,
};
use texlab::document::{Language, Owner};
use texlab::watcher::FileWatcher;
use texlab::workspace::Workspace;

fn component(files: &[&str], references: &[&str]) -> Component {
    Component {
        file_names: files.iter().map(|s| s.to_string()).collect(),
        references: references.iter().map(|s| s.to_string()).collect(),
        commands: Vec::new(),
        environments: vec![files.join("+")],
    }
}

fn metadata(name: &str, description: Option<&str>) -> ComponentMetadata {
    ComponentMetadata {
        name: name.to_string(),
        caption: None,
        description: description.map(|s| s.to_string()),
    }
}

fn database() -> ComponentDatabase {
    ComponentDatabase {
        components: vec![
            component(&["amsmath.sty"], &["amstext.sty", "missing.sty"]),
            component(&[], &[]),
            component(&["amstext.sty", "amsbsy.sty"], &[]),
            component(&["article.cls"], &["size10.clo"]),
            component(&["tikz.sty"], &["amsmath.sty"]),
            component(&["amsmath.sty"], &[]),
            component(&[], &["tikz.sty"]),
        ],
        metadata: vec![
            metadata("amsmath", Some("AMS mathematical facilities")),
            metadata("tikz", None),
            metadata("amsmath", Some("second")),
        ],
    }
}

fn names(found: &[&Component]) -> Vec<String> {
    found.iter().map(|c| c.environments[0].clone()).collect()
}

fn open(workspace: &mut Workspace, name: &str, text: &str) {
    let language = Language::from_path(name.as_bytes()).unwrap_or(Language::Tex);
    workspace.open(name.as_bytes().to_vec(), text.as_bytes().to_vec(), language, Owner::Client);
}

#[test]
fn find_by_file_name() {
    let db = database();
    assert_eq!(db.find("amsmath.sty"), Some(&db.components[0]));
    assert_eq!(db.find("amsbsy.sty"), Some(&db.components[2]));
    assert_eq!(db.find("article.cls"), Some(&db.components[3]));
    assert_eq!(db.find("amsmath"), None);
    assert_eq!(db.find(""), None);
    assert_eq!(db.find_bytes(b"tikz.sty"), Some(&db.components[4]));
}

#[test]
fn kernel_is_the_first_component_without_files() {
    let db = database();
    assert!(db.has_kernel());
    assert!(std::ptr::eq(db.kernel(), &db.components[1]));
    let none = ComponentDatabase { components: vec![component(&["a.sty"], &[])], metadata: Vec::new() };
    assert!(!none.has_kernel());
    assert!(!ComponentDatabase { components: Vec::new(), metadata: Vec::new() }.has_kernel());
}

#[test]
fn documentation_is_the_description_as_plain_text() {
    let db = database();
    let content = db.documentation("amsmath").unwrap();
    assert_eq!(content.kind, MarkupKind::PlainText);
    assert_eq!(content.value, "AMS mathematical facilities");
    assert_eq!(db.documentation("tikz"), None);
    assert_eq!(db.documentation("unknown"), None);
}

#[test]
fn linked_components_come_with_references_and_without_duplicates() {
    let db = database();
    let found = db.linked_to(&vec![b"tikz.sty".to_vec(), b"nothing.sty".to_vec(), b"amsmath.sty".to_vec()]);
    assert_eq!(names(&found), vec!["amsmath.sty", "tikz.sty", "amstext.sty+amsbsy.sty", ""]);
    let found = db.linked_to(&Vec::new());
    assert_eq!(names(&found), vec![""]);
}

#[test]
fn duplicates_by_file_names_keep_the_first() {
    let db = ComponentDatabase {
        components: vec![
            Component {
                file_names: vec!["a.sty".to_string()],
                references: vec!["b.sty".to_string(), "b.sty".to_string()],
                commands: Vec::new(),
                environments: vec!["first a".to_string()],
            },
            component(&["b.sty"], &[]),
            component(&[], &[]),
        ],
        metadata: Vec::new(),
    };
    let found = db.linked_to(&vec![b"a.sty".to_vec(), b"a.sty".to_vec(), b"b.sty".to_vec()]);
    assert_eq!(names(&found), vec!["b.sty", "first a", ""]);
}

#[test]
fn linked_components_of_a_project() {
    let db = database();
    let mut workspace = Workspace::new(Vec::new());
    open(&mut workspace, "/w/main.tex", "\\documentclass{article}\\usepackage{tikz}\\input{part}");
    open(&mut workspace, "/w/part.tex", "\\usepackage{amsmath, unknown}");
    open(&mut workspace, "/w/else.tex", "\\usepackage{amstext}");
    let members = workspace.related(1);
    assert_eq!(
        package_names_for(&workspace, &members),
        vec![
            b"article.cls".to_vec(),
            b"tikz.sty".to_vec(),
            b"amsmath.sty".to_vec(),
            b"unknown.sty".to_vec(),
        ]
    );
    let found = db.linked_components(&workspace, 1);
    assert_eq!(
        names(&found),
        vec!["article.cls", "amsmath.sty", "tikz.sty", "amstext.sty+amsbsy.sty", ""]
    );
    let found = db.linked_components(&workspace, 2);
    assert_eq!(names(&found), vec!["amstext.sty+amsbsy.sty", ""]);
}

#[test]
fn watcher_asks_once_for_each_directory() {
    let mut workspace = Workspace::new(Vec::new());
    open(&mut workspace, "/w/main.tex", "");
    open(&mut workspace, "/w/part.tex", "");
    open(&mut workspace, "/w/sub/deep.tex", "");
    open(&mut workspace, "plain.tex", "");
    let mut watcher = FileWatcher::new();
    assert_eq!(
        watcher.watch(&workspace),
        vec![b"/w/".to_vec(), b"/w/sub/".to_vec(), b"".to_vec()]
    );
    assert_eq!(watcher.watch(&workspace), Vec::<Vec<u8>>::new());
    open(&mut workspace, "/w/sub/more.tex", "");
    open(&mut workspace, "/other/x.tex", "");
    assert_eq!(watcher.watch(&workspace), vec![b"/other/".to_vec()]);
}

#[test]
fn completion_limit() {
    assert_eq!(COMPLETION_LIMIT, 50);
}

#[test]
fn resolving_packages_and_classes() {
    let db = database();
    let workspace = Workspace::new(Vec::new());
    for data in [CompletionItemData::Package, CompletionItemData::Class] {
        match completion_resolve(&workspace, &db, "amsmath", &data) {
            Resolved::Replaced(Some(Documentation::PlainText(text))) => {
                assert_eq!(text, "AMS mathematical facilities")
            }
            _ => panic!("expected a description"),
        }
        assert!(matches!(completion_resolve(&workspace, &db, "tikz", &data), Resolved::Replaced(None)));
        assert!(matches!(completion_resolve(&workspace, &db, "zzz", &data), Resolved::Replaced(None)));
    }
    assert!(matches!(
        completion_resolve(&workspace, &db, "amsmath", &CompletionItemData::Other),
        Resolved::Unchanged
    ));
}

#[test]
fn resolving_citations() {
    let db = database();
    let mut workspace = Workspace::new(Vec::new());
    open(
        &mut workspace,
        "/w/refs.bib",
        "@string{x = {y}}\n@book{knuth, author = {Knuth, Donald E.}, title = {The {\\TeX}book}, year = 1984}\n@misc{empty, note = {n}}",
    );
    open(&mut workspace, "/w/main.tex", "@book{knuth, title = {No}}");
    let citation = |uri: &str, key: &str| CompletionItemData::Citation {
        uri: uri.as_bytes().to_vec(),
        key: key.as_bytes().to_vec(),
    };
    match completion_resolve(&workspace, &db, "knuth", &citation("/w/refs.bib", "knuth")) {
        Resolved::Replaced(Some(Documentation::Markdown(text))) => {
            assert_eq!(text, b"Knuth, Donald E. (1984). *The \\TeXbook*.")
        }
        _ => panic!("expected a rendering"),
    }
    assert!(matches!(
        completion_resolve(&workspace, &db, "x", &citation("/w/refs.bib", "empty")),
        Resolved::Replaced(None)
    ));
    assert!(matches!(
        completion_resolve(&workspace, &db, "x", &citation("/w/refs.bib", "unknown")),
        Resolved::Replaced(None)
    ));
    assert!(matches!(
        completion_resolve(&workspace, &db, "x", &citation("/w/refs.bib", "x = {y}")),
        Resolved::Replaced(None)
    ));
    assert!(matches!(
        completion_resolve(&workspace, &db, "x", &citation("/w/main.tex", "knuth")),
        Resolved::Unchanged
    ));
    assert!(matches!(
        completion_resolve(&workspace, &db, "x", &citation("/w/none.bib", "knuth")),
        Resolved::Unchanged
    ));
}

fn labels(workspace: &Workspace, uri: &str, line: usize, character: usize) -> Option<Vec<String>> {
    complete(workspace, uri.as_bytes(), Position { line, character }).map(|list| {
        list.items.iter().map(|item| String::from_utf8(item.label.clone()).unwrap()).collect()
    })
}

#[test]
fn completion_context_is_the_innermost_argument() {
    assert_eq!(context(b"\\cite{abc}", 6), Some(CompletionKind::Citation));
    assert_eq!(context(b"\\cite{abc}", 9), Some(CompletionKind::Citation));
    assert_eq!(context(b"\\cite{abc}", 5), None);
    assert_eq!(context(b"\\cite{abc}", 10), None);
    assert_eq!(context(b"\\ref{}", 5), Some(CompletionKind::Label));
    assert_eq!(context(b"\\begin{x}", 7), Some(CompletionKind::Environment));
    assert_eq!(context(b"\\label{x}", 7), None);
    assert_eq!(context(b"\\section{a \\cite{b} c}", 18), Some(CompletionKind::Citation));
    assert_eq!(context(b"\\section{a \\cite{b} c}", 21), None);
    assert_eq!(context(b"\\cite{a \\emph{b}}", 15), None);
    assert_eq!(context(b"plain text", 3), None);
}

#[test]
fn completion_offers_what_the_project_has() {
    let mut workspace = Workspace::new(Vec::new());
    open(
        &mut workspace,
        "/w/main.tex",
        "\\input{part}\\bibliography{refs}\\label{sec:a}\\newenvironment{box}{}{}\n\\cite{}\\ref{}\\begin{}\\input{}",
    );
    open(&mut workspace, "/w/part.tex", "\\label{fig:b}\\ref{sec:a}\\newenvironment{note}{}{}");
    open(&mut workspace, "/w/refs.bib", "@string{s = {x}}@book{knuth, title = {T}}@article{lamport,}");
    open(&mut workspace, "/w/else.tex", "\\label{other}");
    open(&mut workspace, "/w/else.bib", "@book{unrelated,}");
    assert_eq!(labels(&workspace, "/w/main.tex", 1, 6), Some(vec!["knuth".to_string(), "lamport".to_string()]));
    assert_eq!(labels(&workspace, "/w/main.tex", 1, 12), Some(vec!["sec:a".to_string(), "fig:b".to_string()]));
    assert_eq!(labels(&workspace, "/w/main.tex", 1, 20), Some(vec!["box".to_string(), "note".to_string()]));
    assert_eq!(labels(&workspace, "/w/main.tex", 1, 28), Some(Vec::new()));
    assert_eq!(labels(&workspace, "/w/main.tex", 0, 0), Some(Vec::new()));
    assert_eq!(labels(&workspace, "/w/refs.bib", 0, 3), Some(Vec::new()));
    assert_eq!(labels(&workspace, "/w/none.tex", 0, 0), None);
    let list = complete(&workspace, b"/w/main.tex", Position { line: 1, character: 6 }).unwrap();
    assert!(!list.is_incomplete);
    assert!(list.items.iter().all(|item| item.kind == CompletionKind::Citation));
}

#[test]
fn completion_list_is_cut_at_the_limit() {
    let mut bib = String::new();
    for i in 0..60 {
        bib.push_str(&format!("@book{{key{},}}\n", i));
    }
    let mut workspace = Workspace::new(Vec::new());
    open(&mut workspace, "/w/main.tex", "\\bibliography{refs}\\cite{}");
    open(&mut workspace, "/w/refs.bib", &bib);
    let list = complete(&workspace, b"/w/main.tex", Position { line: 0, character: 25 }).unwrap();
    assert!(list.is_incomplete);
    assert_eq!(list.items.len(), 50);
    assert_eq!(list.items[0].label, b"key0");
    assert_eq!(list.items[49].label, b"key49");
    let mut workspace = Workspace::new(Vec::new());
    open(&mut workspace, "/w/main.tex", "\\bibliography{refs}\\cite{}");
    let fifty: String = (0..50).map(|i| format!("@book{{k{},}}", i)).collect();
    open(&mut workspace, "/w/refs.bib", &fifty);
    let list = complete(&workspace, b"/w/main.tex", Position { line: 0, character: 25 }).unwrap();
    assert!(!list.is_incomplete);
    assert_eq!(list.items.len(), 50);
}
