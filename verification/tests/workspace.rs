use texlab::document::{Language, Owner, TextChange};
use texlab::text::{Position, PositionRange};
use texlab::workspace::{FileEventKind, Workspace, WorkspaceEvent};

fn uri(name: &str) -> Vec<u8> {
    format!("file:///home/user/{}", name).into_bytes()
}

fn open(workspace: &mut Workspace, name: &str, text: &str, owner: Owner) {
    let language = Language::from_path(name.as_bytes()).unwrap_or(Language::Tex);
    workspace.open(uri(name), text.as_bytes().to_vec(), language, owner);
}

fn insert(line: usize, character: usize, text: &str) -> TextChange {
    let at = Position { line, character };
    TextChange { range: Some(PositionRange { start: at, end: at }), text: text.as_bytes().to_vec() }
}

fn changed(event: WorkspaceEvent) -> Vec<u8> {
    match event {
        WorkspaceEvent::Changed(uri) => uri,
    }
}

#[test]
fn new_workspace_is_empty() {
    let workspace = Workspace::new(vec![b"/root/".to_vec()]);
    assert_eq!(workspace.len(), 0);
    assert_eq!(workspace.revision(), 0);
    assert_eq!(workspace.roots(), &vec![b"/root/".to_vec()]);
    assert_eq!(workspace.lookup(&uri("a.tex")), None);
}

#[test]
fn open_inserts_and_emits_changed() {
    let mut workspace = Workspace::new(Vec::new());
    let event = workspace.open(uri("a.tex"), b"A".to_vec(), Language::Tex, Owner::Client);
    assert_eq!(changed(event), uri("a.tex"));
    assert_eq!(workspace.len(), 1);
    assert_eq!(workspace.revision(), 1);
    assert_eq!(workspace.lookup(&uri("a.tex")), Some(0));
    let document = workspace.document(0);
    assert_eq!(document.text().as_slice(), b"A");
    assert_eq!(document.owner(), Owner::Client);
    assert_eq!(document.revision(), 1);
    assert_eq!(document.cursor(), 0);
}

#[test]
fn open_replaces_a_held_document_and_keeps_its_cursor() {
    let mut workspace = Workspace::new(Vec::new());
    open(&mut workspace, "a.tex", "first", Owner::Server);
    open(&mut workspace, "b.tex", "other", Owner::Server);
    assert!(workspace.set_cursor(&uri("a.tex"), 3));
    workspace.open(uri("a.tex"), b"second".to_vec(), Language::Bib, Owner::Client);
    assert_eq!(workspace.len(), 2);
    assert_eq!(workspace.revision(), 3);
    let document = workspace.document(0);
    assert_eq!(document.text().as_slice(), b"second");
    assert_eq!(document.language(), Language::Bib);
    assert_eq!(document.owner(), Owner::Client);
    assert_eq!(document.cursor(), 3);
    assert_eq!(document.revision(), 3);
    assert_eq!(workspace.document(1).revision(), 2);
}

#[test]
fn edit_changes_text_and_bumps_revision_once() {
    let mut workspace = Workspace::new(Vec::new());
    open(&mut workspace, "a.tex", "ab", Owner::Client);
    let done = workspace.edit(&uri("a.tex"), &vec![insert(0, 1, "X"), insert(0, 3, "Y")]);
    assert_eq!(done.event.map(changed), Some(uri("a.tex")));
    assert!(!done.clamped);
    assert_eq!(workspace.document(0).text().as_slice(), b"aXbY");
    assert_eq!(workspace.revision(), 2);
    assert_eq!(workspace.document(0).revision(), 2);
    assert_eq!(workspace.document(0).cursor(), 3);
}

#[test]
fn empty_edit_batch_is_a_no_op() {
    let mut workspace = Workspace::new(Vec::new());
    open(&mut workspace, "a.tex", "ab", Owner::Client);
    workspace.set_cursor(&uri("a.tex"), 1);
    let done = workspace.edit(&uri("a.tex"), &Vec::new());
    assert!(done.event.is_none());
    assert!(!done.clamped);
    assert_eq!(workspace.revision(), 1);
    assert_eq!(workspace.document(0).revision(), 1);
    assert_eq!(workspace.document(0).text().as_slice(), b"ab");
    assert_eq!(workspace.document(0).cursor(), 1);
}

#[test]
fn edit_of_unknown_document_is_a_no_op() {
    let mut workspace = Workspace::new(Vec::new());
    open(&mut workspace, "a.tex", "ab", Owner::Client);
    let done = workspace.edit(&uri("zzz.tex"), &vec![insert(0, 9, "X")]);
    assert!(done.event.is_none());
    assert!(!done.clamped);
    assert_eq!(workspace.revision(), 1);
    assert_eq!(workspace.len(), 1);
    assert_eq!(workspace.document(0).text().as_slice(), b"ab");
}

#[test]
fn replace_resets_cursor_and_emits_changed() {
    let mut workspace = Workspace::new(Vec::new());
    open(&mut workspace, "a.tex", "ab", Owner::Client);
    workspace.set_cursor(&uri("a.tex"), 2);
    let event = workspace.replace(&uri("a.tex"), b"new".to_vec());
    assert_eq!(event.map(changed), Some(uri("a.tex")));
    assert_eq!(workspace.document(0).text().as_slice(), b"new");
    assert_eq!(workspace.document(0).cursor(), 0);
    assert_eq!(workspace.revision(), 2);
    assert!(workspace.replace(&uri("none.tex"), b"x".to_vec()).is_none());
    assert_eq!(workspace.revision(), 2);
}

#[test]
fn metadata_does_not_bump_revision() {
    let mut workspace = Workspace::new(Vec::new());
    open(&mut workspace, "a.tex", "ab\ncd", Owner::Client);
    assert!(workspace.set_owner(&uri("a.tex"), Owner::Server));
    assert!(workspace.set_cursor(&uri("a.tex"), 4));
    assert_eq!(workspace.set_cursor_at(&uri("a.tex"), Position { line: 1, character: 1 }), Some(4));
    assert_eq!(workspace.revision(), 1);
    assert_eq!(workspace.document(0).revision(), 1);
    assert_eq!(workspace.document(0).owner(), Owner::Server);
    assert_eq!(workspace.document(0).cursor(), 4);
    assert!(!workspace.set_owner(&uri("b.tex"), Owner::Server));
    assert!(!workspace.set_cursor(&uri("b.tex"), 1));
    assert_eq!(workspace.set_cursor_at(&uri("b.tex"), Position { line: 0, character: 0 }), None);
}

#[test]
fn close_keeps_the_document_for_the_server() {
    let mut workspace = Workspace::new(Vec::new());
    open(&mut workspace, "a.tex", "ab", Owner::Client);
    assert!(workspace.close(&uri("a.tex")));
    assert_eq!(workspace.len(), 1);
    assert_eq!(workspace.document(0).owner(), Owner::Server);
    assert_eq!(workspace.document(0).text().as_slice(), b"ab");
    assert_eq!(workspace.revision(), 1);
    assert!(!workspace.close(&uri("b.tex")));
}

#[test]
fn reopening_with_identical_text_gives_identical_analysis() {
    let text = "\\documentclass{article}\\input{chap1}\\cite{a}\\label{l}";
    let mut workspace = Workspace::new(Vec::new());
    open(&mut workspace, "main.tex", text, Owner::Client);
    let links = workspace.document(0).links().clone();
    let labels = workspace.document(0).analysis().labels.clone();
    let citations = workspace.document(0).analysis().citations.clone();
    workspace.close(&uri("main.tex"));
    open(&mut workspace, "main.tex", text, Owner::Client);
    assert_eq!(workspace.len(), 1);
    assert_eq!(workspace.document(0).links(), &links);
    assert_eq!(workspace.document(0).analysis().labels, labels);
    assert_eq!(workspace.document(0).analysis().citations, citations);
    assert_eq!(workspace.document(0).owner(), Owner::Client);
}

#[test]
fn remove_takes_only_documents_of_the_server() {
    let mut workspace = Workspace::new(Vec::new());
    open(&mut workspace, "a.tex", "a", Owner::Client);
    open(&mut workspace, "b.tex", "b", Owner::Server);
    open(&mut workspace, "c.tex", "c", Owner::Server);
    assert!(!workspace.remove(&uri("a.tex")));
    assert_eq!(workspace.len(), 3);
    assert_eq!(workspace.revision(), 3);
    assert!(workspace.remove(&uri("b.tex")));
    assert_eq!(workspace.len(), 2);
    assert_eq!(workspace.revision(), 4);
    assert_eq!(workspace.lookup(&uri("b.tex")), None);
    assert_eq!(workspace.lookup(&uri("a.tex")), Some(0));
    assert_eq!(workspace.lookup(&uri("c.tex")), Some(1));
    assert!(!workspace.remove(&uri("b.tex")));
    assert_eq!(workspace.revision(), 4);
}

#[test]
fn snapshot_sees_mutations_before_and_none_after() {
    let mut workspace = Workspace::new(vec![b"/r/".to_vec()]);
    open(&mut workspace, "a.tex", "one", Owner::Client);
    workspace.edit(&uri("a.tex"), &vec![insert(0, 3, " two")]);
    let snapshot = workspace.snapshot();
    workspace.edit(&uri("a.tex"), &vec![insert(0, 7, " three")]);
    open(&mut workspace, "b.tex", "b", Owner::Client);
    assert_eq!(snapshot.len(), 1);
    assert_eq!(snapshot.revision(), 2);
    assert_eq!(snapshot.document(0).text().as_slice(), b"one two");
    assert_eq!(snapshot.document(0).uri(), &uri("a.tex"));
    assert_eq!(snapshot.roots(), &vec![b"/r/".to_vec()]);
    assert_eq!(workspace.document(0).text().as_slice(), b"one two three");
    assert_eq!(workspace.len(), 2);
}

#[test]
fn created_and_modified_files_are_requested_unless_an_editor_holds_them() {
    let mut workspace = Workspace::new(Vec::new());
    open(&mut workspace, "open.tex", "o", Owner::Client);
    open(&mut workspace, "disk.tex", "d", Owner::Server);
    let paths = vec![uri("open.tex"), uri("disk.tex"), uri("new.bib"), uri("image.png"), uri("x.log")];
    for kind in [FileEventKind::Create, FileEventKind::Modify] {
        let requests = workspace.handle_file_event(kind, &paths);
        let wanted: Vec<(Vec<u8>, Language)> =
            requests.into_iter().map(|r| (r.path, r.language)).collect();
        assert_eq!(
            wanted,
            vec![
                (uri("disk.tex"), Language::Tex),
                (uri("new.bib"), Language::Bib),
                (uri("x.log"), Language::BuildLog),
            ]
        );
    }
    assert_eq!(workspace.len(), 2);
    assert_eq!(workspace.revision(), 2);
}

#[test]
fn removed_files_leave_if_the_server_holds_them() {
    let mut workspace = Workspace::new(Vec::new());
    open(&mut workspace, "open.tex", "o", Owner::Client);
    open(&mut workspace, "disk.tex", "d", Owner::Server);
    open(&mut workspace, "more.tex", "m", Owner::Server);
    let paths = vec![uri("open.tex"), uri("disk.tex"), uri("unknown.tex")];
    let requests = workspace.handle_file_event(FileEventKind::Remove, &paths);
    assert!(requests.is_empty());
    assert_eq!(workspace.len(), 2);
    assert_eq!(workspace.lookup(&uri("open.tex")), Some(0));
    assert_eq!(workspace.lookup(&uri("more.tex")), Some(1));
    assert_eq!(workspace.lookup(&uri("disk.tex")), None);
}

#[test]
fn other_file_events_change_nothing() {
    let mut workspace = Workspace::new(Vec::new());
    open(&mut workspace, "disk.tex", "d", Owner::Server);
    let requests = workspace.handle_file_event(FileEventKind::Other, &vec![uri("disk.tex")]);
    assert!(requests.is_empty());
    assert_eq!(workspace.len(), 1);
    assert_eq!(workspace.revision(), 1);
}

#[test]
fn set_roots_counts_as_a_mutation() {
    let mut workspace = Workspace::new(Vec::new());
    workspace.set_roots(vec![b"/a/".to_vec(), b"/b/".to_vec()]);
    assert_eq!(workspace.roots().len(), 2);
    assert_eq!(workspace.revision(), 1);
}

#[test]
fn lookup_follows_what_is_held() {
    let mut workspace = Workspace::new(Vec::new());
    assert_eq!(workspace.lookup(&uri("a.tex")), None);
    open(&mut workspace, "a.tex", "a", Owner::Server);
    open(&mut workspace, "b.tex", "b", Owner::Server);
    assert_eq!(workspace.lookup(&uri("a.tex")), Some(0));
    assert_eq!(workspace.lookup(&uri("b.tex")), Some(1));
    assert_eq!(workspace.lookup(&uri("c.tex")), None);
    let snapshot = workspace.snapshot();
    assert!(workspace.remove(&uri("a.tex")));
    assert_eq!(workspace.lookup(&uri("a.tex")), None);
    assert_eq!(workspace.lookup(&uri("b.tex")), Some(0));
    assert!(!workspace.remove(&uri("a.tex")));
    open(&mut workspace, "a.tex", "again", Owner::Client);
    assert_eq!(workspace.lookup(&uri("a.tex")), Some(1));
    // The snapshot is as the workspace was when it was taken.
    assert_eq!(snapshot.len(), 2);
    assert_eq!(snapshot.lookup(&uri("a.tex")), Some(0));
    assert_eq!(snapshot.document(0).text().as_slice(), b"a");
    assert_eq!(snapshot.revision(), 2);
    assert_eq!(workspace.revision(), 4);
}

#[test]
fn room_for_mutations() {
    let mut workspace = Workspace::new(Vec::new());
    assert!(workspace.has_room(0));
    assert!(workspace.has_room(usize::MAX));
    open(&mut workspace, "a.tex", "a", Owner::Server);
    assert!(workspace.has_room(1));
    assert_eq!(workspace.has_room(usize::MAX), (usize::MAX as u128) + 1 <= u64::MAX as u128);
}
