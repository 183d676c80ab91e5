use texlab::analysis::{Analysis, LabelKind, Link, LinkKind};
use texlab::bibtex::{parse_bibtex, parse_fields};
use texlab::distro::parse_listing;
use texlab::document::{Document, Language, Owner, Problem};
use texlab::text::{Position, PositionRange};
use texlab::syntax::{check_tex, parse_tex, Diagnostic, SyntaxError};
use texlab::text::Span;

fn word(text: &[u8], span: Span) -> &str {
    std::str::from_utf8(&text[span.start..span.end]).unwrap()
}

fn links(text: &[u8]) -> Vec<(LinkKind, String)> {
    Analysis::of_tex(text)
        .links
        .iter()
        .map(|link: &Link| (link.kind, word(text, link.path).to_string()))
        .collect()
}

#[test]
fn commands_with_and_without_arguments() {
    let text = b"\\documentclass[a4paper]{article} \\maketitle \\section{One}";
    let found = parse_tex(text);
    assert_eq!(found.len(), 3);
    assert_eq!(word(text, found[0].name), "documentclass");
    assert_eq!(word(text, found[0].argument.unwrap()), "article");
    assert_eq!(word(text, found[1].name), "maketitle");
    assert_eq!(found[1].argument, None);
    assert_eq!(word(text, found[2].name), "section");
    assert_eq!(word(text, found[2].argument.unwrap()), "One");
}

#[test]
fn commands_inside_arguments_are_found() {
    let text = b"\\section{Intro \\label{sec:intro}}";
    let found = parse_tex(text);
    assert_eq!(found.len(), 2);
    assert_eq!(word(text, found[0].argument.unwrap()), "Intro \\label{sec:intro}");
    assert_eq!(word(text, found[1].name), "label");
    assert_eq!(word(text, found[1].argument.unwrap()), "sec:intro");
}

#[test]
fn comments_and_escapes_hold_no_commands() {
    let text = b"% \\input{hidden}\n\\input{shown} 100\\% \\input{also}\n\\\\input{no}";
    let found = parse_tex(text);
    let names: Vec<&str> = found.iter().map(|c| word(text, c.argument.unwrap())).collect();
    assert_eq!(names, vec!["shown", "also"]);
}

#[test]
fn unclosed_group_is_no_argument() {
    let text = b"\\input{never closed";
    let found = parse_tex(text);
    assert_eq!(found.len(), 1);
    assert_eq!(found[0].argument, None);
    assert_eq!(links(text), vec![]);
}

#[test]
fn links_by_kind_in_source_order() {
    let text = b"\\documentclass{book}\\usepackage[utf8]{inputenc}\\usepackage{ amsmath , tikz }\n\\begin{document}\\input{chap1}\\include{chap2.tex}\\bibliography{refs,more}\\includegraphics[width=1cm]{fig/a.png}\\end{document}";
    assert_eq!(
        links(text),
        vec![
            (LinkKind::Class, "book".to_string()),
            (LinkKind::Package, "inputenc".to_string()),
            (LinkKind::Package, "amsmath".to_string()),
            (LinkKind::Package, "tikz".to_string()),
            (LinkKind::Latex, "chap1".to_string()),
            (LinkKind::Latex, "chap2.tex".to_string()),
            (LinkKind::Bibliography, "refs".to_string()),
            (LinkKind::Bibliography, "more".to_string()),
            (LinkKind::Graphic, "fig/a.png".to_string()),
        ]
    );
}

#[test]
fn empty_words_are_dropped() {
    assert_eq!(links(b"\\usepackage{,a,, ,b,}"), vec![
        (LinkKind::Package, "a".to_string()),
        (LinkKind::Package, "b".to_string()),
    ]);
    assert_eq!(links(b"\\input{}"), vec![]);
    assert_eq!(links(b"\\input{   }"), vec![]);
}

#[test]
fn labels_citations_and_names() {
    let text = b"\\label{a}\\ref{a}\\eqref{b}\\cite{k1, k2}\\citep[p. 3]{k3}\\begin{proof}\\newcommand{\\foo}{x}\\newenvironment{box}{}{}";
    let analysis = Analysis::of_tex(text);
    let labels: Vec<(LabelKind, &str)> =
        analysis.labels.iter().map(|l| (l.kind, word(text, l.name))).collect();
    assert_eq!(
        labels,
        vec![
            (LabelKind::Definition, "a"),
            (LabelKind::Reference, "a"),
            (LabelKind::Reference, "b"),
        ]
    );
    let keys: Vec<&str> = analysis.citations.iter().map(|s| word(text, *s)).collect();
    assert_eq!(keys, vec!["k1", "k2", "k3"]);
    let envs: Vec<&str> = analysis.environments.iter().map(|s| word(text, *s)).collect();
    assert_eq!(envs, vec!["proof"]);
    let defined: Vec<&str> = analysis.defined_commands.iter().map(|s| word(text, *s)).collect();
    assert_eq!(defined, vec!["\\foo"]);
    let boxes: Vec<&str> = analysis.defined_environments.iter().map(|s| word(text, *s)).collect();
    assert_eq!(boxes, vec!["box"]);
    assert!(analysis.entries.is_empty());
    let used: Vec<&str> = analysis.commands.iter().map(|s| word(text, *s)).collect();
    assert_eq!(
        used,
        vec!["label", "ref", "eqref", "cite", "citep", "begin", "newcommand", "foo", "newenvironment"]
    );
}

#[test]
fn analysis_depends_on_language() {
    let text = b"\\input{a} @book{k, title = {T}}";
    let tex = Analysis::of(Language::Tex, text);
    assert_eq!(tex.links.len(), 1);
    assert_eq!(tex.entries.len(), 0);
    let bib = Analysis::of(Language::Bib, text);
    assert_eq!(bib.links.len(), 0);
    assert_eq!(bib.entries.len(), 1);
    let log = Analysis::of(Language::BuildLog, text);
    assert_eq!(log.links.len(), 0);
    assert_eq!(log.entries.len(), 0);
    let other = Analysis::of(Language::Other, text);
    assert_eq!(other.links.len() + other.entries.len(), 0);
}

#[test]
fn same_text_gives_same_analysis() {
    let text = b"\\documentclass{article}\\input{a}\\cite{x}\\label{l}";
    let first = Analysis::of(Language::Tex, text);
    let second = Analysis::of(Language::Tex, text);
    assert_eq!(first.links, second.links);
    assert_eq!(first.labels, second.labels);
    assert_eq!(first.citations, second.citations);
}

#[test]
fn bibliography_entries() {
    let text = b"@comment{x}\n@string{s = {v}}\n@Article{ key1 ,\n author = {A},\n}\n@book{key2}\n@misc {key3, note = \"n\"}";
    let found = parse_bibtex(text);
    let kinds: Vec<&str> = found.iter().map(|e| word(text, e.kind)).collect();
    let keys: Vec<&str> = found.iter().map(|e| word(text, e.key)).collect();
    assert_eq!(kinds, vec!["comment", "string", "Article", "book", "misc"]);
    assert_eq!(keys, vec!["x", "s = {v}", "key1", "key2", "key3"]);
}

#[test]
fn bibliography_fields() {
    let text = b"author = {Knuth, {Donald} E.}, title = \"The Book\", year = 1984 , month = jan";
    let found = parse_fields(text, 0, text.len());
    let pairs: Vec<(&str, &str)> =
        found.iter().map(|f| (word(text, f.name), word(text, f.value))).collect();
    assert_eq!(
        pairs,
        vec![
            ("author", "Knuth, {Donald} E."),
            ("title", "The Book"),
            ("year", "1984"),
            ("month", "jan"),
        ]
    );
}

#[test]
fn fields_stop_at_what_is_no_field() {
    let text = b"a = {1}, = 2, b = {3}";
    let found = parse_fields(text, 0, text.len());
    assert_eq!(found.len(), 1);
    assert_eq!(word(text, found[0].name), "a");
    let text = b"a = {unclosed, b = {3}";
    let found = parse_fields(text, 0, text.len());
    assert_eq!(found.len(), 1);
    assert_eq!(word(text, found[0].value), "unclosed, b = {3}");
}

#[test]
fn balanced_braces_give_no_diagnostics() {
    assert_eq!(check_tex(b""), Vec::new());
    assert_eq!(check_tex(b"\\section{One {two} three}{}"), Vec::new());
    assert_eq!(check_tex(b"% } comment {\n\\{ escaped \\}"), Vec::new());
}

#[test]
fn unbalanced_braces_are_reported_where_they_stand() {
    let missing = |at| Diagnostic { error: SyntaxError::MissingClosingBrace, at };
    let unexpected = |at| Diagnostic { error: SyntaxError::UnexpectedClosingBrace, at };
    assert_eq!(check_tex(b"}"), vec![unexpected(0)]);
    assert_eq!(check_tex(b"{"), vec![missing(0)]);
    assert_eq!(check_tex(b"a}b{c{d}e"), vec![unexpected(1), missing(3)]);
    assert_eq!(check_tex(b"{{}{"), vec![missing(0), missing(3)]);
    assert_eq!(check_tex(b"}}{}}"), vec![unexpected(0), unexpected(1), unexpected(4)]);
    assert_eq!(check_tex(b"{ % }\n"), vec![missing(0)]);
}

#[test]
fn parsing_goes_on_after_an_error() {
    let text = b"}\\input{a}{\\input{b}";
    let analysis = Analysis::of(Language::Tex, text);
    assert_eq!(analysis.links.len(), 2);
    assert_eq!(analysis.diagnostics.len(), 2);
    assert!(Analysis::of(Language::Bib, b"}{").diagnostics.is_empty());
}

#[test]
fn problems_carry_ranges() {
    let document = Document::new(
        b"/w/a.tex".to_vec(),
        b"ab}\n \xc3\xa4{".to_vec(),
        Language::Tex,
        Owner::Client,
        1,
    );
    let at = |line, character| Position { line, character };
    assert_eq!(
        document.problems(),
        vec![
            Problem {
                range: PositionRange { start: at(0, 2), end: at(0, 3) },
                error: SyntaxError::UnexpectedClosingBrace,
            },
            Problem {
                range: PositionRange { start: at(1, 2), end: at(1, 3) },
                error: SyntaxError::MissingClosingBrace,
            },
        ]
    );
    let bib = Document::new(b"/w/a.bib".to_vec(), b"}{".to_vec(), Language::Bib, Owner::Client, 1);
    assert_eq!(bib.problems(), Vec::new());
}

fn pairs(files: Vec<(Vec<u8>, Vec<u8>)>) -> Vec<(String, String)> {
    files
        .into_iter()
        .map(|(name, at)| (String::from_utf8(name).unwrap(), String::from_utf8(at).unwrap()))
        .collect()
}

fn pair(name: &str, at: &str) -> (String, String) {
    (name.to_string(), at.to_string())
}

#[test]
fn distribution_listing() {
    let listing = b"% ls-R -- filename database.\n./:\nls-R\ntex\n\n./tex/latex/base:\narticle.cls\r\nbook.cls\n\ntex/latex/ams/:\namsmath.sty\n.:\nREADME";
    assert_eq!(
        pairs(parse_listing(b"file:///dist", listing)),
        vec![
            pair("ls-R", "file:///dist/ls-R"),
            pair("tex", "file:///dist/tex"),
            pair("article.cls", "file:///dist/tex/latex/base/article.cls"),
            pair("book.cls", "file:///dist/tex/latex/base/book.cls"),
            pair("amsmath.sty", "file:///dist/tex/latex/ams/amsmath.sty"),
            pair("README", "file:///dist/README"),
        ]
    );
    assert_eq!(pairs(parse_listing(b"/d/", b"a\n:\nb\n")), vec![pair("a", "/d/a"), pair("b", "/d/b")]);
    assert_eq!(parse_listing(b"/d", b""), Vec::new());
    assert_eq!(parse_listing(b"/d", b"\n\n% only comments\n./x:\n"), Vec::new());
}

#[test]
fn syntax_errors_have_messages() {
    assert_eq!(texlab::syntax::SyntaxError::MissingClosingBrace.message(), "Missing \"}\"");
    assert_eq!(texlab::syntax::SyntaxError::UnexpectedClosingBrace.message(), "Unexpected \"}\"");
}
