use texlab::action::{Action, ActionManager, LintReason, ProgressToken};
use texlab::config::{
    ClientCapabilities, ClientFlags, ClientInfo, Durability, Formatter, Input, Options,
    DEFAULT_DIAGNOSTICS_DELAY,
};
use texlab::document::{Language, Owner, TextChange};
use texlab::server::{
    capabilities, pick_configuration, ConfigurationStep, Lifecycle, MessageKind, Method, Route,
    Server, StartupStep, Step, SyncKind, INTERNAL_ERROR, INVALID_REQUEST, METHOD_NOT_FOUND,
};
use texlab::text::{Position, PositionRange};
use texlab::workspace::WorkspaceEvent;

fn flags(pull: bool, push: bool) -> ClientFlags {
    ClientFlags { pull_configuration: pull, push_configuration: push }
}

fn server() -> Server {
    Server::new(flags(false, false))
}

fn uri(name: &str) -> Vec<u8> {
    format!("file:///w/{}", name).into_bytes()
}

#[test]
fn method_names() {
    let table = [
        ("shutdown", Method::Shutdown),
        ("exit", Method::Exit),
        ("$/cancelRequest", Method::Cancel),
        ("workspace/didChangeConfiguration", Method::DidChangeConfiguration),
        ("workspace/didChangeWatchedFiles", Method::DidChangeWatchedFiles),
        ("textDocument/didOpen", Method::DidOpen),
        ("textDocument/didChange", Method::DidChange),
        ("textDocument/didSave", Method::DidSave),
        ("textDocument/didClose", Method::DidClose),
        ("textDocument/documentLink", Method::DocumentLink),
        ("textDocument/foldingRange", Method::FoldingRange),
        ("textDocument/references", Method::References),
        ("textDocument/hover", Method::Hover),
        ("textDocument/documentSymbol", Method::DocumentSymbol),
        ("workspace/symbol", Method::WorkspaceSymbol),
        ("textDocument/completion", Method::Completion),
        ("completionItem/resolve", Method::CompletionResolve),
        ("textDocument/definition", Method::GotoDefinition),
        ("textDocument/prepareRename", Method::PrepareRename),
        ("textDocument/rename", Method::Rename),
        ("textDocument/documentHighlight", Method::DocumentHighlight),
        ("textDocument/formatting", Method::Formatting),
        ("textDocument/build", Method::Build),
        ("textDocument/forwardSearch", Method::ForwardSearch),
        ("workspace/executeCommand", Method::ExecuteCommand),
        ("textDocument/semanticTokens/range", Method::SemanticTokensRange),
        ("textDocument/inlayHint", Method::InlayHint),
        ("inlayHint/resolve", Method::InlayHintResolve),
        ("textDocument/codeAction", Method::Unknown),
        ("", Method::Unknown),
        ("Shutdown", Method::Unknown),
    ];
    for (name, method) in table {
        assert_eq!(Method::from_name(name), method, "{}", name);
    }
}

#[test]
fn routes_of_methods() {
    assert_eq!(Method::DidOpen.route(), Some(Route::Mutation));
    assert_eq!(Method::DidChange.route(), Some(Route::Mutation));
    assert_eq!(Method::DidChangeConfiguration.route(), Some(Route::Mutation));
    assert_eq!(Method::Completion.route(), Some(Route::Query));
    assert_eq!(Method::DocumentLink.route(), Some(Route::Query));
    assert_eq!(Method::Hover.route(), Some(Route::CursorQuery));
    assert_eq!(Method::References.route(), Some(Route::Feature));
    assert_eq!(Method::Rename.route(), Some(Route::Feature));
    assert_eq!(Method::WorkspaceSymbol.route(), Some(Route::Job));
    assert_eq!(Method::ExecuteCommand.route(), Some(Route::Job));
    assert_eq!(Method::Build.route(), Some(Route::Build));
    assert_eq!(Method::ForwardSearch.route(), Some(Route::ForwardSearch));
    assert_eq!(Method::InlayHintResolve.route(), Some(Route::Echo));
    assert_eq!(Method::Cancel.route(), Some(Route::Silent));
    assert_eq!(Method::SemanticTokensRange.route(), Some(Route::Silent));
    assert_eq!(Method::Shutdown.route(), None);
    assert_eq!(Method::Exit.route(), None);
    assert_eq!(Method::Unknown.route(), None);
    assert!(Method::DidSave.is_notification());
    assert!(Method::Cancel.is_notification());
    assert!(!Method::Hover.is_notification());
    assert!(!Method::Shutdown.is_notification());
}

#[test]
fn running_server_handles_requests_and_notifications() {
    let mut s = server();
    assert_eq!(
        s.step(MessageKind::Request, Method::Completion),
        Step::Handle(Method::Completion, Route::Query)
    );
    assert_eq!(
        s.step(MessageKind::Notification, Method::DidChange),
        Step::Handle(Method::DidChange, Route::Mutation)
    );
    assert_eq!(s.step(MessageKind::Response, Method::Unknown), Step::Deliver);
    assert_eq!(s.step(MessageKind::Request, Method::Unknown), Step::Refuse(METHOD_NOT_FOUND));
    assert_eq!(s.step(MessageKind::Request, Method::DidOpen), Step::Refuse(METHOD_NOT_FOUND));
    assert_eq!(s.step(MessageKind::Notification, Method::Unknown), Step::Skip);
    assert_eq!(s.step(MessageKind::Notification, Method::Hover), Step::Skip);
    assert_eq!(s.step(MessageKind::Notification, Method::Shutdown), Step::Skip);
    assert_eq!(s.lifecycle, Lifecycle::Running);
}

#[test]
fn shutdown_then_exit() {
    let mut s = server();
    assert_eq!(s.step(MessageKind::Request, Method::Shutdown), Step::Acknowledge);
    assert_eq!(s.lifecycle, Lifecycle::ShuttingDown);
    assert_eq!(s.step(MessageKind::Request, Method::Hover), Step::Refuse(INVALID_REQUEST));
    assert_eq!(s.step(MessageKind::Request, Method::Shutdown), Step::Refuse(INVALID_REQUEST));
    assert_eq!(s.step(MessageKind::Notification, Method::DidChange), Step::Skip);
    assert_eq!(s.step(MessageKind::Response, Method::Unknown), Step::Deliver);
    assert_eq!(s.lifecycle, Lifecycle::ShuttingDown);
    assert_eq!(s.step(MessageKind::Notification, Method::Exit), Step::Stop);
    assert_eq!(s.lifecycle, Lifecycle::Exited);
    assert_eq!(s.step(MessageKind::Request, Method::Hover), Step::Stop);
    assert_eq!(s.lifecycle, Lifecycle::Exited);
}

#[test]
fn exit_without_shutdown_ends_the_loop() {
    let mut s = server();
    assert_eq!(s.step(MessageKind::Notification, Method::Exit), Step::Stop);
    assert_eq!(s.lifecycle, Lifecycle::Exited);
}

#[test]
fn server_name() {
    assert_eq!(Server::name(), "TexLab");
}

#[test]
fn error_codes() {
    assert_eq!(INVALID_REQUEST, -32600);
    assert_eq!(METHOD_NOT_FOUND, -32601);
    assert_eq!(INTERNAL_ERROR, -32603);
}

#[test]
fn advertised_capabilities() {
    let c = capabilities();
    assert!(c.open_close);
    assert_eq!(c.change, SyncKind::Incremental);
    assert!(!c.save_include_text);
    assert!(c.document_link);
    assert!(!c.document_link_resolve);
    assert!(c.folding_range && c.definition && c.references && c.hover);
    assert!(c.completion_resolve);
    assert_eq!(c.completion_triggers, vec!["\\", "{", "}", "@", "/", " "]);
    assert!(c.document_symbol && c.workspace_symbol);
    assert!(c.rename && c.rename_prepare);
    assert!(c.document_highlight && c.document_formatting);
    assert_eq!(c.commands, vec!["texlab.cleanAuxiliary", "texlab.cleanArtifacts"]);
    assert!(c.inlay_hint);
}

#[test]
fn startup_steps_follow_the_client() {
    let detect = StartupStep::DetectDistribution;
    let listen = StartupStep::ListenForChanges;
    let register = StartupStep::RegisterConfiguration;
    let pull = StartupStep::PullOptions;
    assert_eq!(Server::new(flags(false, false)).initialize(false), vec![detect, listen]);
    assert_eq!(Server::new(flags(false, false)).initialize(true), vec![listen]);
    assert_eq!(
        Server::new(flags(true, true)).initialize(false),
        vec![detect, listen, register, pull]
    );
    assert_eq!(Server::new(flags(true, false)).initialize(true), vec![listen, pull]);
    assert_eq!(Server::new(flags(false, true)).initialize(true), vec![listen, register]);
}

#[test]
fn configuration_registration_and_pull() {
    let s = Server::new(flags(false, true));
    let registration = s.register_configuration().unwrap();
    assert_eq!(registration.id, "pull-config");
    assert_eq!(registration.method, "workspace/didChangeConfiguration");
    assert!(s.pull_options().is_none());
    assert_eq!(s.did_change_configuration(), ConfigurationStep::UseSettings);
    let s = Server::new(flags(true, false));
    assert!(s.register_configuration().is_none());
    assert_eq!(s.pull_options().unwrap(), "texlab");
    assert_eq!(s.did_change_configuration(), ConfigurationStep::Pull);
}

#[test]
fn configuration_is_the_last_answer() {
    assert_eq!(pick_configuration(vec![1, 2, 3]), Some(3));
    assert_eq!(pick_configuration(vec!["only"]), Some("only"));
    assert_eq!(pick_configuration(Vec::<u8>::new()), None);
}

#[test]
fn default_options() {
    let options = Options::new();
    assert_eq!(DEFAULT_DIAGNOSTICS_DELAY, 300);
    assert_eq!(options.diagnostics_delay, 300);
    assert_eq!(Options::default().diagnostics_delay, 300);
    assert!(!options.chktex.on_edit);
    assert!(!options.chktex.on_open_and_save);
    assert!(!options.build.on_save);
    assert!(!options.build.forward_search_after);
    assert!(options.build.executable.is_none());
    assert!(options.forward_search.executable.is_none());
    assert!(options.forward_search.args.is_none());
    assert!(options.root_directory.is_none());
    assert_eq!(options.bibtex_formatter, Formatter::Texlab);
}

#[test]
fn durability_of_inputs() {
    assert_eq!(Input::ClientCapabilities.durability(), Durability::High);
    assert_eq!(Input::Distribution.durability(), Durability::High);
    assert_eq!(Input::Configuration.durability(), Durability::Medium);
    assert_eq!(Input::Text.durability(), Durability::Low);
    assert_eq!(Input::Cursor.durability(), Durability::Low);
}

#[test]
fn update_options_sets_the_search_roots() {
    let mut s = server();
    let mut options = Options::new();
    options.root_directory = Some(b"/project".to_vec());
    options.diagnostics_delay = 200;
    s.update_options(options);
    assert_eq!(s.options.diagnostics_delay, 200);
    assert_eq!(s.workspace.roots(), &vec![b"/project".to_vec()]);
    assert_eq!(s.workspace.revision(), 1);
    s.update_options(Options::new());
    assert!(s.workspace.roots().is_empty());
    assert_eq!(s.workspace.revision(), 2);
}

#[test]
fn did_open_uses_tex_for_unknown_language_ids() {
    let mut s = server();
    let event = s.did_open(&uri("a.tex"), "latex", b"A".to_vec());
    match event {
        WorkspaceEvent::Changed(changed) => assert_eq!(changed, uri("a.tex")),
    }
    s.did_open(&uri("b.bib"), "bibtex", b"B".to_vec());
    s.did_open(&uri("c.txt"), "plaintext", b"C".to_vec());
    assert_eq!(s.workspace.document(0).language(), Language::Tex);
    assert_eq!(s.workspace.document(1).language(), Language::Bib);
    assert_eq!(s.workspace.document(2).language(), Language::Tex);
    for i in 0..3 {
        assert_eq!(s.workspace.document(i).owner(), Owner::Client);
    }
}

#[test]
fn completion_after_a_hundred_changes_sees_them_all() {
    let mut s = server();
    s.did_open(&uri("a.tex"), "latex", Vec::new());
    let mut expected = Vec::new();
    for i in 0..100usize {
        let at = Position { line: 0, character: expected.len() };
        let text = format!("{},", i).into_bytes();
        expected.extend_from_slice(&text);
        let change = TextChange { range: Some(PositionRange { start: at, end: at }), text };
        assert_eq!(
            s.step(MessageKind::Notification, Method::DidChange),
            Step::Handle(Method::DidChange, Route::Mutation)
        );
        assert!(s.did_change(&uri("a.tex"), &vec![change]).event.is_some());
    }
    assert_eq!(
        s.step(MessageKind::Request, Method::Completion),
        Step::Handle(Method::Completion, Route::Query)
    );
    let snapshot = s.workspace.snapshot();
    s.did_change(&uri("a.tex"), &vec![TextChange { range: None, text: b"later".to_vec() }]);
    assert_eq!(snapshot.document(0).text(), &expected);
    assert_eq!(snapshot.document(0).revision(), 101);
    assert_eq!(snapshot.revision(), 101);
}

#[test]
fn did_change_without_changes_or_document_gives_no_event() {
    let mut s = server();
    s.did_open(&uri("a.tex"), "latex", b"A".to_vec());
    assert!(s.did_change(&uri("a.tex"), &Vec::new()).event.is_none());
    assert!(s
        .did_change(&uri("b.tex"), &vec![TextChange { range: None, text: b"x".to_vec() }])
        .event
        .is_none());
    assert_eq!(s.workspace.revision(), 1);
}

#[test]
fn did_save_asks_for_build_and_lint_as_configured() {
    let mut s = server();
    s.did_open(&uri("a.tex"), "latex", b"A".to_vec());
    assert_eq!(s.did_save(&uri("a.tex")), Vec::new());
    s.options.build.on_save = true;
    assert_eq!(s.did_save(&uri("a.tex")), vec![Action::Build(uri("a.tex"))]);
    s.options.chktex.on_open_and_save = true;
    assert_eq!(
        s.did_save(&uri("a.tex")),
        vec![Action::Build(uri("a.tex")), Action::RunLinter(uri("a.tex"), LintReason::Save)]
    );
    assert_eq!(s.did_save(&uri("unknown.tex")), vec![Action::Build(uri("unknown.tex"))]);
    s.options.build.on_save = false;
    assert_eq!(s.did_save(&uri("a.tex")), vec![Action::RunLinter(uri("a.tex"), LintReason::Save)]);
    assert_eq!(s.did_save(&uri("unknown.tex")), Vec::new());
}

#[test]
fn did_close_hands_the_document_to_the_server() {
    let mut s = server();
    s.did_open(&uri("a.tex"), "latex", b"A".to_vec());
    assert!(s.did_close(&uri("a.tex")));
    assert_eq!(s.workspace.len(), 1);
    assert_eq!(s.workspace.document(0).owner(), Owner::Server);
    assert!(!s.did_close(&uri("b.tex")));
}

#[test]
fn hover_records_the_cursor() {
    let mut s = server();
    s.did_open(&uri("a.tex"), "latex", b"ab\ncdef".to_vec());
    assert_eq!(s.hover(&uri("a.tex"), Position { line: 1, character: 2 }), Some(5));
    assert_eq!(s.workspace.document(0).cursor(), 5);
    assert_eq!(s.workspace.revision(), 1);
    assert_eq!(s.hover(&uri("b.tex"), Position { line: 0, character: 0 }), None);
}

#[test]
fn feature_requests_need_a_known_document() {
    let mut s = server();
    s.did_open(&uri("a.tex"), "latex", b"A".to_vec());
    assert_eq!(s.handle_feature_request(&uri("a.tex")).ok(), Some(0));
    let failure = s.handle_feature_request(&uri("b.tex")).err().unwrap();
    assert_eq!(failure.code, -32600);
    assert_eq!(failure.message, "unknown document");
}

#[test]
fn diagnostics_are_published_for_all_but_build_logs() {
    let mut s = server();
    s.did_open(&uri("a.tex"), "latex", b"A".to_vec());
    s.workspace.open(uri("a.log"), b"log".to_vec(), Language::BuildLog, Owner::Server);
    s.workspace.open(uri("a.aux"), b"aux".to_vec(), Language::AuxFile, Owner::Server);
    s.workspace.open(uri("b.log"), b"log".to_vec(), Language::BuildLog, Owner::Server);
    s.workspace.open(uri("r.bib"), b"bib".to_vec(), Language::Bib, Owner::Server);
    let snapshot = s.workspace.snapshot();
    assert_eq!(Server::publish_diagnostics(&snapshot), vec![0, 2, 4]);
    assert_eq!(Server::publish_diagnostics(&texlab::workspace::Workspace::new(Vec::new())), Vec::<usize>::new());
}

#[test]
fn actions_are_taken_in_the_order_pushed() {
    let mut manager = ActionManager::new();
    assert_eq!(manager.take(), Vec::new());
    manager.push(Action::LoadDistribution);
    manager.push(Action::DetectRoot(uri("a.tex")));
    manager.push(Action::RunLinter(uri("a.tex"), LintReason::Change));
    manager.push(Action::CancelBuild(ProgressToken::Number(7)));
    manager.push(Action::CancelBuild(ProgressToken::Text("t".to_string())));
    manager.push(Action::PublishDiagnostics);
    assert_eq!(
        manager.take(),
        vec![
            Action::LoadDistribution,
            Action::DetectRoot(uri("a.tex")),
            Action::RunLinter(uri("a.tex"), LintReason::Change),
            Action::CancelBuild(ProgressToken::Number(7)),
            Action::CancelBuild(ProgressToken::Text("t".to_string())),
            Action::PublishDiagnostics,
        ]
    );
    assert_eq!(manager.take(), Vec::new());
    manager.push(Action::Build(uri("b.tex")));
    assert_eq!(manager.take(), vec![Action::Build(uri("b.tex"))]);
}

#[test]
fn uris_are_normalized_at_every_ingress() {
    let mut s = server();
    s.did_open(b"FILE:///w/a%2fb.tex/", "latex", b"ab\ncd".to_vec());
    assert_eq!(s.workspace.len(), 1);
    assert_eq!(s.workspace.document(0).uri().as_slice(), b"file:///w/a%2Fb.tex");
    let change = TextChange { range: None, text: b"new".to_vec() };
    assert!(s.did_change(b"File:///w/a%2Fb.tex", &vec![change]).event.is_some());
    assert_eq!(s.workspace.document(0).text().as_slice(), b"new");
    assert_eq!(s.hover(b"file:///w/a%2fb.tex//", Position { line: 0, character: 2 }), Some(2));
    assert_eq!(s.handle_feature_request(b"FILE:///w/a%2fb.tex").ok(), Some(0));
    s.did_open(b"file:///w/a%2Fb.tex", "latex", b"again".to_vec());
    assert_eq!(s.workspace.len(), 1);
    assert!(s.did_close(b"fIlE:///w/a%2fb.tex/"));
    assert_eq!(s.workspace.document(0).owner(), Owner::Server);
    assert!(s.load(b"FILE:///w/c.tex/", b"c".to_vec(), Language::Tex).is_some());
    assert_eq!(s.workspace.document(1).uri().as_slice(), b"file:///w/c.tex");
    assert_eq!(s.workspace.document(1).owner(), Owner::Server);
    let requests = s.handle_file_event(
        texlab::workspace::FileEventKind::Remove,
        &vec![b"FILE:///w/c.tex".to_vec(), b"FILE:///w/a%2fb.tex".to_vec()],
    );
    assert!(requests.is_empty());
    assert_eq!(s.workspace.len(), 0);
    let requests = s.handle_file_event(
        texlab::workspace::FileEventKind::Create,
        &vec![b"FILE:///w/new.bib/".to_vec()],
    );
    assert_eq!(requests.len(), 1);
    assert_eq!(requests[0].path, b"file:///w/new.bib");
}

#[test]
fn files_from_disk_do_not_replace_open_documents() {
    let mut s = server();
    s.did_open(&uri("a.tex"), "latex", b"in the editor".to_vec());
    assert!(s.load(&uri("a.tex"), b"on disk".to_vec(), Language::Tex).is_none());
    assert_eq!(s.workspace.document(0).text().as_slice(), b"in the editor");
    assert_eq!(s.workspace.document(0).owner(), Owner::Client);
    assert_eq!(s.workspace.revision(), 1);
    s.did_close(&uri("a.tex"));
    assert!(s.load(&uri("a.tex"), b"on disk".to_vec(), Language::Tex).is_some());
    assert_eq!(s.workspace.document(0).text().as_slice(), b"on disk");
    assert_eq!(s.workspace.document(0).owner(), Owner::Server);
    s.did_open(&uri("a.tex"), "latex", b"again".to_vec());
    assert_eq!(s.workspace.document(0).owner(), Owner::Client);
    assert_eq!(s.workspace.len(), 1);
}

#[test]
fn client_has_only_what_it_said_it_has() {
    use_capabilities(None, None, false, false);
    use_capabilities(Some(false), Some(false), false, false);
    use_capabilities(Some(true), None, true, false);
    use_capabilities(None, Some(true), false, true);
    use_capabilities(Some(true), Some(true), true, true);
}

fn use_capabilities(configuration: Option<bool>, registration: Option<bool>, pull: bool, push: bool) {
    let capabilities =
        ClientCapabilities { configuration, configuration_registration: registration };
    assert_eq!(capabilities.flags(), flags(pull, push));
    let mut s = server();
    assert_eq!(s.client_info, None);
    let info = ClientInfo { name: "editor".to_string(), version: Some("1.2".to_string()) };
    s.set_client(&capabilities, Some(info.clone()));
    assert_eq!(s.client, flags(pull, push));
    assert_eq!(s.client_info, Some(info));
    assert_eq!(s.register_configuration().is_some(), push);
    assert_eq!(s.pull_options().is_some(), pull);
}
