//! The decisions of the server: what it advertises, what each incoming message
//! leads to, and what a mutation or a request asks of the machinery around
//! it. The machinery itself (channels, threads, processes) is not here; it
//! hands in events and carries out what is returned.

use crate::action::{views, Action, ActionView, LintReason};
use crate::bytes::{copy_range, str_same};
use crate::config::{flags_of, ClientCapabilities, ClientFlags, ClientInfo, Options};
use crate::document::{language_of_id, Language, Owner, TextChange};
use crate::project::{lemma_related_reflexive, project_of};
use crate::text::Position;
use crate::uri::{normalize, normalized};
use crate::workspace::{
    paths_of, requested, wanted, without_all, Edited, FileEventKind, LoadRequest, Workspace,
    WorkspaceEvent, WorkspaceView,
};
use vstd::prelude::*;
use vstd::string::*;

verus! {

/// JSON-RPC: the request is not valid in the state the server is in.
pub const INVALID_REQUEST: i32 = -32600;

/// JSON-RPC: the method is not known.
pub const METHOD_NOT_FOUND: i32 = -32601;

/// JSON-RPC: the server failed while it handled the request.
pub const INTERNAL_ERROR: i32 = -32603;

/// The name under which the server introduces itself.
pub open spec fn server_name() -> Seq<char> {
    "TexLab"@
}

/// The methods that the server knows.
#[derive(Debug, PartialEq, Eq, Clone, Copy, Structural)]
pub enum Method {
    Shutdown,
    Exit,
    Cancel,
    DidChangeConfiguration,
    DidChangeWatchedFiles,
    DidOpen,
    DidChange,
    DidSave,
    DidClose,
    DocumentLink,
    FoldingRange,
    References,
    Hover,
    DocumentSymbol,
    WorkspaceSymbol,
    Completion,
    CompletionResolve,
    GotoDefinition,
    PrepareRename,
    Rename,
    DocumentHighlight,
    Formatting,
    Build,
    ForwardSearch,
    ExecuteCommand,
    SemanticTokensRange,
    InlayHint,
    InlayHintResolve,
    Unknown,
}

/// How a message is framed.
#[derive(Debug, PartialEq, Eq, Clone, Copy, Structural)]
pub enum MessageKind {
    Request,
    Notification,
    Response,
}

/// What handling a method takes.
#[derive(Debug, PartialEq, Eq, Clone, Copy, Structural)]
pub enum Route {
    /// The workspace is mutated, on the thread that owns it.
    Mutation,
    /// A read on a fresh snapshot, by a worker.
    Query,
    /// The cursor is recorded, then a read on a fresh snapshot, by a worker.
    CursorQuery,
    /// A read on a fresh snapshot that is answered with an error where the
    /// document is unknown.
    Feature,
    /// Work on the whole workspace, by a worker.
    Job,
    /// A build, one at a time.
    Build,
    /// A forward search.
    ForwardSearch,
    /// Answered at once with what was sent.
    Echo,
    /// Accepted, and nothing is done or answered.
    Silent,
}

/// Where the server is in its life.
#[derive(Debug, PartialEq, Eq, Clone, Copy, Structural)]
pub enum Lifecycle {
    Running,
    ShuttingDown,
    Exited,
}

/// What the main loop does with a message.
#[derive(Debug, PartialEq, Eq, Clone, Copy, Structural)]
pub enum Step {
    /// Leave the loop.
    Stop,
    /// Answer with this error code.
    Refuse(i32),
    /// Answer the shutdown request with an empty result.
    Acknowledge,
    /// Handle the method in this way.
    Handle(Method, Route),
    /// Hand the response to the request that waits for it.
    Deliver,
    /// Do nothing.
    Skip,
}

/// The method that a name stands for.
#[verifier::opaque]
pub open spec fn method_of(name: Seq<char>) -> Method {
    if name == "shutdown"@ {
        Method::Shutdown
    } else if name == "exit"@ {
        Method::Exit
    } else if name == "$/cancelRequest"@ {
        Method::Cancel
    } else if name == "workspace/didChangeConfiguration"@ {
        Method::DidChangeConfiguration
    } else if name == "workspace/didChangeWatchedFiles"@ {
        Method::DidChangeWatchedFiles
    } else if name == "textDocument/didOpen"@ {
        Method::DidOpen
    } else if name == "textDocument/didChange"@ {
        Method::DidChange
    } else if name == "textDocument/didSave"@ {
        Method::DidSave
    } else if name == "textDocument/didClose"@ {
        Method::DidClose
    } else if name == "textDocument/documentLink"@ {
        Method::DocumentLink
    } else if name == "textDocument/foldingRange"@ {
        Method::FoldingRange
    } else if name == "textDocument/references"@ {
        Method::References
    } else if name == "textDocument/hover"@ {
        Method::Hover
    } else if name == "textDocument/documentSymbol"@ {
        Method::DocumentSymbol
    } else if name == "workspace/symbol"@ {
        Method::WorkspaceSymbol
    } else if name == "textDocument/completion"@ {
        Method::Completion
    } else if name == "completionItem/resolve"@ {
        Method::CompletionResolve
    } else if name == "textDocument/definition"@ {
        Method::GotoDefinition
    } else if name == "textDocument/prepareRename"@ {
        Method::PrepareRename
    } else if name == "textDocument/rename"@ {
        Method::Rename
    } else if name == "textDocument/documentHighlight"@ {
        Method::DocumentHighlight
    } else if name == "textDocument/formatting"@ {
        Method::Formatting
    } else if name == "textDocument/build"@ {
        Method::Build
    } else if name == "textDocument/forwardSearch"@ {
        Method::ForwardSearch
    } else if name == "workspace/executeCommand"@ {
        Method::ExecuteCommand
    } else if name == "textDocument/semanticTokens/range"@ {
        Method::SemanticTokensRange
    } else if name == "textDocument/inlayHint"@ {
        Method::InlayHint
    } else if name == "inlayHint/resolve"@ {
        Method::InlayHintResolve
    } else {
        Method::Unknown
    }
}

impl Method {
    /// Whether the method is sent as a notification. All others that are known
    /// are sent as requests.
    pub open spec fn spec_is_notification(self) -> bool {
        match self {
            Method::Exit
            | Method::Cancel
            | Method::DidChangeConfiguration
            | Method::DidChangeWatchedFiles
            | Method::DidOpen
            | Method::DidChange
            | Method::DidSave
            | Method::DidClose => true,
            _ => false,
        }
    }

    /// How the method is handled while the server runs. The three methods
    /// that end the server's life and the unknown method have no route.
    pub open spec fn spec_route(self) -> Option<Route> {
        match self {
            Method::Shutdown | Method::Exit | Method::Unknown => None,
            Method::DidOpen
            | Method::DidChange
            | Method::DidSave
            | Method::DidClose
            | Method::DidChangeConfiguration => Some(Route::Mutation),
            Method::Cancel | Method::DidChangeWatchedFiles | Method::SemanticTokensRange => Some(
                Route::Silent,
            ),
            Method::DocumentLink
            | Method::FoldingRange
            | Method::Completion
            | Method::CompletionResolve
            | Method::Formatting
            | Method::InlayHint => Some(Route::Query),
            Method::Hover => Some(Route::CursorQuery),
            Method::References
            | Method::DocumentSymbol
            | Method::GotoDefinition
            | Method::PrepareRename
            | Method::Rename
            | Method::DocumentHighlight => Some(Route::Feature),
            Method::WorkspaceSymbol | Method::ExecuteCommand => Some(Route::Job),
            Method::Build => Some(Route::Build),
            Method::ForwardSearch => Some(Route::ForwardSearch),
            Method::InlayHintResolve => Some(Route::Echo),
        }
    }

    /// The method that a name stands for.
    pub fn from_name(name: &str) -> (method: Method)
        ensures
            method == method_of(name@),
    {
        reveal(method_of);
        if str_same(name, "shutdown") {
            Method::Shutdown
        } else if str_same(name, "exit") {
            Method::Exit
        } else if str_same(name, "$/cancelRequest") {
            Method::Cancel
        } else if str_same(name, "workspace/didChangeConfiguration") {
            Method::DidChangeConfiguration
        } else if str_same(name, "workspace/didChangeWatchedFiles") {
            Method::DidChangeWatchedFiles
        } else if str_same(name, "textDocument/didOpen") {
            Method::DidOpen
        } else if str_same(name, "textDocument/didChange") {
            Method::DidChange
        } else if str_same(name, "textDocument/didSave") {
            Method::DidSave
        } else if str_same(name, "textDocument/didClose") {
            Method::DidClose
        } else if str_same(name, "textDocument/documentLink") {
            Method::DocumentLink
        } else if str_same(name, "textDocument/foldingRange") {
            Method::FoldingRange
        } else if str_same(name, "textDocument/references") {
            Method::References
        } else if str_same(name, "textDocument/hover") {
            Method::Hover
        } else if str_same(name, "textDocument/documentSymbol") {
            Method::DocumentSymbol
        } else if str_same(name, "workspace/symbol") {
            Method::WorkspaceSymbol
        } else if str_same(name, "textDocument/completion") {
            Method::Completion
        } else if str_same(name, "completionItem/resolve") {
            Method::CompletionResolve
        } else if str_same(name, "textDocument/definition") {
            Method::GotoDefinition
        } else if str_same(name, "textDocument/prepareRename") {
            Method::PrepareRename
        } else if str_same(name, "textDocument/rename") {
            Method::Rename
        } else if str_same(name, "textDocument/documentHighlight") {
            Method::DocumentHighlight
        } else if str_same(name, "textDocument/formatting") {
            Method::Formatting
        } else if str_same(name, "textDocument/build") {
            Method::Build
        } else if str_same(name, "textDocument/forwardSearch") {
            Method::ForwardSearch
        } else if str_same(name, "workspace/executeCommand") {
            Method::ExecuteCommand
        } else if str_same(name, "textDocument/semanticTokens/range") {
            Method::SemanticTokensRange
        } else if str_same(name, "textDocument/inlayHint") {
            Method::InlayHint
        } else if str_same(name, "inlayHint/resolve") {
            Method::InlayHintResolve
        } else {
            Method::Unknown
        }
    }

    /// Whether the method is sent as a notification.
    #[verifier::when_used_as_spec(spec_is_notification)]
    pub fn is_notification(self) -> (yes: bool)
        ensures
            yes == self.spec_is_notification(),
    {
        match self {
            Method::Exit
            | Method::Cancel
            | Method::DidChangeConfiguration
            | Method::DidChangeWatchedFiles
            | Method::DidOpen
            | Method::DidChange
            | Method::DidSave
            | Method::DidClose => true,
            _ => false,
        }
    }

    /// How the method is handled while the server runs.
    #[verifier::when_used_as_spec(spec_route)]
    pub fn route(self) -> (route: Option<Route>)
        ensures
            route == self.spec_route(),
    {
        match self {
            Method::Shutdown | Method::Exit | Method::Unknown => None,
            Method::DidOpen
            | Method::DidChange
            | Method::DidSave
            | Method::DidClose
            | Method::DidChangeConfiguration => Some(Route::Mutation),
            Method::Cancel | Method::DidChangeWatchedFiles | Method::SemanticTokensRange => Some(
                Route::Silent,
            ),
            Method::DocumentLink
            | Method::FoldingRange
            | Method::Completion
            | Method::CompletionResolve
            | Method::Formatting
            | Method::InlayHint => Some(Route::Query),
            Method::Hover => Some(Route::CursorQuery),
            Method::References
            | Method::DocumentSymbol
            | Method::GotoDefinition
            | Method::PrepareRename
            | Method::Rename
            | Method::DocumentHighlight => Some(Route::Feature),
            Method::WorkspaceSymbol | Method::ExecuteCommand => Some(Route::Job),
            Method::Build => Some(Route::Build),
            Method::ForwardSearch => Some(Route::ForwardSearch),
            Method::InlayHintResolve => Some(Route::Echo),
        }
    }
}

/// What a message leads to, and where it leaves the server.
///
/// While the server runs, a shutdown request is acknowledged, and from then
/// on every request is refused. The exit notification ends the loop in either
/// state. A request for a method that is unknown, or that is a notification,
/// is refused; a notification that is unknown, or that is a request, is
/// skipped. Responses are delivered as long as the server lives.
pub open spec fn next_step(lifecycle: Lifecycle, kind: MessageKind, method: Method) -> (
    Lifecycle,
    Step,
) {
    match lifecycle {
        Lifecycle::Exited => (Lifecycle::Exited, Step::Stop),
        Lifecycle::ShuttingDown => match kind {
            MessageKind::Request => (Lifecycle::ShuttingDown, Step::Refuse(INVALID_REQUEST)),
            MessageKind::Notification => if method == Method::Exit {
                (Lifecycle::Exited, Step::Stop)
            } else {
                (Lifecycle::ShuttingDown, Step::Skip)
            },
            MessageKind::Response => (Lifecycle::ShuttingDown, Step::Deliver),
        },
        Lifecycle::Running => match kind {
            MessageKind::Request => if method == Method::Shutdown {
                (Lifecycle::ShuttingDown, Step::Acknowledge)
            } else if method.spec_is_notification() || method.spec_route() is None {
                (Lifecycle::Running, Step::Refuse(METHOD_NOT_FOUND))
            } else {
                (Lifecycle::Running, Step::Handle(method, method.spec_route()->0))
            },
            MessageKind::Notification => if method == Method::Exit {
                (Lifecycle::Exited, Step::Stop)
            } else if method.spec_is_notification() && method.spec_route() is Some {
                (Lifecycle::Running, Step::Handle(method, method.spec_route()->0))
            } else {
                (Lifecycle::Running, Step::Skip)
            },
            MessageKind::Response => (Lifecycle::Running, Step::Deliver),
        },
    }
}

/// How text changes are sent.
#[derive(Debug, PartialEq, Eq, Clone, Copy, Structural)]
pub enum SyncKind {
    Off,
    Full,
    Incremental,
}

/// What the server tells the client it can do.
pub struct ServerCapabilities {
    pub open_close: bool,
    pub change: SyncKind,
    pub save_include_text: bool,
    pub document_link: bool,
    pub document_link_resolve: bool,
    pub folding_range: bool,
    pub definition: bool,
    pub references: bool,
    pub hover: bool,
    pub completion_resolve: bool,
    pub completion_triggers: Vec<String>,
    pub document_symbol: bool,
    pub workspace_symbol: bool,
    pub rename: bool,
    pub rename_prepare: bool,
    pub document_highlight: bool,
    pub document_formatting: bool,
    pub commands: Vec<String>,
    pub inlay_hint: bool,
}

/// The characters of each of some strings.
pub open spec fn texts(strings: Seq<String>) -> Seq<Seq<char>> {
    Seq::new(strings.len(), |k: int| strings[k]@)
}

/// The characters after which editors ask for completion.
pub open spec fn completion_triggers() -> Seq<Seq<char>> {
    seq!["\\"@, "{"@, "}"@, "@"@, "/"@, " "@]
}

/// The commands that editors may ask the server to execute.
pub open spec fn command_names() -> Seq<Seq<char>> {
    seq!["texlab.cleanAuxiliary"@, "texlab.cleanArtifacts"@]
}

impl ServerCapabilities {
    /// Whether these are the capabilities of this server.
    pub open spec fn advertised(&self) -> bool {
        &&& self.open_close
        &&& self.change == SyncKind::Incremental
        &&& !self.save_include_text
        &&& self.document_link
        &&& !self.document_link_resolve
        &&& self.folding_range
        &&& self.definition
        &&& self.references
        &&& self.hover
        &&& self.completion_resolve
        &&& texts(self.completion_triggers@) == completion_triggers()
        &&& self.document_symbol
        &&& self.workspace_symbol
        &&& self.rename
        &&& self.rename_prepare
        &&& self.document_highlight
        &&& self.document_formatting
        &&& texts(self.commands@) == command_names()
        &&& self.inlay_hint
    }
}

/// What the server tells the client it can do: incremental text
/// synchronisation with open, close and save without text; completion with
/// resolve; and the read features.
pub fn capabilities() -> (offered: ServerCapabilities)
    ensures
        offered.advertised(),
{
    let mut triggers: Vec<String> = Vec::new();
    triggers.push("\\".to_owned());
    triggers.push("{".to_owned());
    triggers.push("}".to_owned());
    triggers.push("@".to_owned());
    triggers.push("/".to_owned());
    triggers.push(" ".to_owned());
    let mut commands: Vec<String> = Vec::new();
    commands.push("texlab.cleanAuxiliary".to_owned());
    commands.push("texlab.cleanArtifacts".to_owned());
    assert(texts(triggers@) =~= completion_triggers());
    assert(texts(commands@) =~= command_names());
    ServerCapabilities {
        open_close: true,
        change: SyncKind::Incremental,
        save_include_text: false,
        document_link: true,
        document_link_resolve: false,
        folding_range: true,
        definition: true,
        references: true,
        hover: true,
        completion_resolve: true,
        completion_triggers: triggers,
        document_symbol: true,
        workspace_symbol: true,
        rename: true,
        rename_prepare: true,
        document_highlight: true,
        document_formatting: true,
        commands,
        inlay_hint: true,
    }
}

/// What is set in motion once the client's `initialize` request was answered.
#[derive(Debug, PartialEq, Eq, Clone, Copy, Structural)]
pub enum StartupStep {
    /// Detect the TeX distribution, on a worker.
    DetectDistribution,
    /// Listen to the workspace's events and feed the diagnostics debouncer.
    ListenForChanges,
    /// Register for configuration changes with the client.
    RegisterConfiguration,
    /// Ask the client for the configuration.
    PullOptions,
}

/// What follows the answer to `initialize`, in order.
pub open spec fn startup_steps(client: ClientFlags, skip_distro: bool) -> Seq<StartupStep> {
    (if skip_distro {
        Seq::<StartupStep>::empty()
    } else {
        seq![StartupStep::DetectDistribution]
    }) + seq![StartupStep::ListenForChanges] + (if client.push_configuration {
        seq![StartupStep::RegisterConfiguration]
    } else {
        Seq::<StartupStep>::empty()
    }) + (if client.pull_configuration {
        seq![StartupStep::PullOptions]
    } else {
        Seq::<StartupStep>::empty()
    })
}

/// A registration for a notification, as the client is asked for it.
pub struct Registration {
    pub id: String,
    pub method: String,
}

/// An error with which a request is answered.
pub struct RequestFailure {
    pub code: i32,
    pub message: String,
}

/// What a change of the configuration leads to.
#[derive(Debug, PartialEq, Eq, Clone, Copy, Structural)]
pub enum ConfigurationStep {
    /// Ask the client for the configuration; what it sent is not used.
    Pull,
    /// Parse what the client sent and use it.
    UseSettings,
}

/// The state of the server that its decisions depend on.
pub struct Server {
    pub workspace: Workspace,
    pub options: Options,
    pub client: ClientFlags,
    pub client_info: Option<ClientInfo>,
    pub lifecycle: Lifecycle,
}

/// What follows a save of the document with this URI: a build if one is
/// asked for, and then a linter run if one is asked for.
pub open spec fn actions_on_save(uri: Seq<u8>, build: bool, lint: bool) -> Seq<ActionView> {
    (if build {
        seq![ActionView::Build(uri)]
    } else {
        Seq::<ActionView>::empty()
    }) + (if lint {
        seq![ActionView::RunLinter(uri, LintReason::Save)]
    } else {
        Seq::<ActionView>::empty()
    })
}

/// Whether an editor holds the document with this URI.
pub open spec fn held_by_editor(workspace: WorkspaceView, uri: Seq<u8>) -> bool {
    match workspace.index_of(uri) {
        Some(i) => workspace.documents[i].owner == Owner::Client,
        None => false,
    }
}

/// The normal forms of `paths`.
pub open spec fn normal_forms(paths: Seq<Vec<u8>>) -> Seq<Seq<u8>> {
    Seq::new(paths.len(), |k: int| normalized(paths[k]@))
}

/// The search roots that the options name.
pub open spec fn roots_of(options: Options) -> Seq<Seq<u8>> {
    match options.root_directory {
        Some(root) => seq![root@],
        None => Seq::empty(),
    }
}

impl Server {
    /// Whether the workspace is well formed.
    pub open spec fn wf(&self) -> bool {
        self.workspace.wf()
    }

    /// A server that runs, with an empty workspace and default options.
    pub fn new(client: ClientFlags) -> (server: Server)
        ensures
            server.wf(),
            server.workspace@.documents.len() == 0,
            server.workspace@.roots.len() == 0,
            server.workspace@.distro.len() == 0,
            server.workspace@.revision == 0,
            server.options.is_default(),
            server.client == client,
            server.client_info is None,
            server.lifecycle == Lifecycle::Running,
    {
        Server {
            workspace: Workspace::new(Vec::new()),
            options: Options::new(),
            client,
            client_info: None,
            lifecycle: Lifecycle::Running,
        }
    }

    /// Takes note of the client: of what it can do, the server keeps how it
    /// handles configuration, and it keeps who the client is. This is what
    /// the client's `initialize` request brings.
    pub fn set_client(&mut self, capabilities: &ClientCapabilities, info: Option<ClientInfo>)
        ensures
            final(self).client == flags_of(*capabilities),
            final(self).client_info == info,
            final(self).workspace == old(self).workspace,
            final(self).options == old(self).options,
            final(self).lifecycle == old(self).lifecycle,
    {
        self.client = capabilities.flags();
        self.client_info = info;
    }

    /// The name under which the server introduces itself.
    pub fn name() -> (name: String)
        ensures
            name@ == server_name(),
    {
        "TexLab".to_owned()
    }

    /// Decides what a message leads to and moves the server along its life.
    pub fn step(&mut self, kind: MessageKind, method: Method) -> (step: Step)
        ensures
            (final(self).lifecycle, step) == next_step(old(self).lifecycle, kind, method),
            final(self).workspace == old(self).workspace,
            final(self).options == old(self).options,
            final(self).client == old(self).client,
            final(self).client_info == old(self).client_info,
    {
        let (lifecycle, step) = match self.lifecycle {
            Lifecycle::Exited => (Lifecycle::Exited, Step::Stop),
            Lifecycle::ShuttingDown => match kind {
                MessageKind::Request => (Lifecycle::ShuttingDown, Step::Refuse(INVALID_REQUEST)),
                MessageKind::Notification => match method {
                    Method::Exit => (Lifecycle::Exited, Step::Stop),
                    _ => (Lifecycle::ShuttingDown, Step::Skip),
                },
                MessageKind::Response => (Lifecycle::ShuttingDown, Step::Deliver),
            },
            Lifecycle::Running => match kind {
                MessageKind::Request => match method {
                    Method::Shutdown => (Lifecycle::ShuttingDown, Step::Acknowledge),
                    _ => match method.route() {
                        Some(route) => if method.is_notification() {
                            (Lifecycle::Running, Step::Refuse(METHOD_NOT_FOUND))
                        } else {
                            (Lifecycle::Running, Step::Handle(method, route))
                        },
                        None => (Lifecycle::Running, Step::Refuse(METHOD_NOT_FOUND)),
                    },
                },
                MessageKind::Notification => match method {
                    Method::Exit => (Lifecycle::Exited, Step::Stop),
                    _ => match method.route() {
                        Some(route) => if method.is_notification() {
                            (Lifecycle::Running, Step::Handle(method, route))
                        } else {
                            (Lifecycle::Running, Step::Skip)
                        },
                        None => (Lifecycle::Running, Step::Skip),
                    },
                },
                MessageKind::Response => (Lifecycle::Running, Step::Deliver),
            },
        };
        self.lifecycle = lifecycle;
        step
    }

    /// What follows the answer to `initialize`, in order: the distribution is
    /// detected unless the client asked to skip that; the workspace is listened
    /// to; configuration changes are registered for where the client allows
    /// it; and the configuration is asked for where the client answers.
    pub fn initialize(&self, skip_distro: bool) -> (steps: Vec<StartupStep>)
        ensures
            steps@ == startup_steps(self.client, skip_distro),
    {
        let mut steps: Vec<StartupStep> = Vec::new();
        if !skip_distro {
            steps.push(StartupStep::DetectDistribution);
        }
        steps.push(StartupStep::ListenForChanges);
        if self.client.push_configuration {
            steps.push(StartupStep::RegisterConfiguration);
        }
        if self.client.pull_configuration {
            steps.push(StartupStep::PullOptions);
        }
        assert(steps@ =~= startup_steps(self.client, skip_distro));
        steps
    }

    /// The registration for configuration changes, where the client lets the
    /// server register for them.
    pub fn register_configuration(&self) -> (registration: Option<Registration>)
        ensures
            registration is Some == self.client.push_configuration,
            registration matches Some(r) ==> r.id@ == "pull-config"@ && r.method@
                == "workspace/didChangeConfiguration"@,
    {
        if self.client.push_configuration {
            Some(
                Registration {
                    id: "pull-config".to_owned(),
                    method: "workspace/didChangeConfiguration".to_owned(),
                },
            )
        } else {
            None
        }
    }

    /// The section of the configuration to ask the client for, where the
    /// client answers such requests.
    pub fn pull_options(&self) -> (section: Option<String>)
        ensures
            section is Some == self.client.pull_configuration,
            section matches Some(s) ==> s@ == "texlab"@,
    {
        if self.client.pull_configuration {
            Some("texlab".to_owned())
        } else {
            None
        }
    }

    /// What a change of the configuration leads to: where the client answers
    /// configuration requests it is asked, otherwise what it sent is used.
    pub fn did_change_configuration(&self) -> (step: ConfigurationStep)
        ensures
            step == if self.client.pull_configuration {
                ConfigurationStep::Pull
            } else {
                ConfigurationStep::UseSettings
            },
    {
        if self.client.pull_configuration {
            ConfigurationStep::Pull
        } else {
            ConfigurationStep::UseSettings
        }
    }

    /// Takes new options into use. The directories in which includes are
    /// searched follow the options, which counts as a mutation.
    pub fn update_options(&mut self, options: Options)
        requires
            old(self).wf(),
            old(self).workspace@.revision < u64::MAX,
        ensures
            final(self).wf(),
            final(self).options == options,
            final(self).workspace@ == (WorkspaceView {
                roots: roots_of(options),
                revision: old(self).workspace@.revision + 1,
                ..old(self).workspace@
            }),
            final(self).client == old(self).client,
            final(self).client_info == old(self).client_info,
            final(self).lifecycle == old(self).lifecycle,
    {
        let mut roots: Vec<Vec<u8>> = Vec::new();
        match &options.root_directory {
            Some(root) => {
                assert(root@.subrange(0, root@.len() as int) =~= root@);
                roots.push(copy_range(root.as_slice(), 0, root.len()));
            },
            None => {},
        }
        assert(paths_of(roots@) =~= roots_of(options));
        self.workspace.set_roots(roots);
        self.options = options;
    }

    /// An editor opened a document. The URI is brought into normal form. An id
    /// that names no language stands for TeX. The editor holds the document
    /// from now on.
    pub fn did_open(&mut self, uri: &[u8], language_id: &str, text: Vec<u8>) -> (event:
        WorkspaceEvent)
        requires
            old(self).wf(),
            old(self).workspace@.revision < u64::MAX,
        ensures
            final(self).wf(),
            final(self).workspace@ == old(self).workspace@.with_opened(
                normalized(uri@),
                text@,
                match language_of_id(language_id@) {
                    Some(language) => language,
                    None => Language::Tex,
                },
                Owner::Client,
            ),
            event matches WorkspaceEvent::Changed(changed) && changed@ == normalized(uri@),
            final(self).options == old(self).options,
            final(self).client == old(self).client,
            final(self).client_info == old(self).client_info,
            final(self).lifecycle == old(self).lifecycle,
    {
        let language = match Language::from_id(language_id) {
            Some(language) => language,
            None => Language::Tex,
        };
        self.workspace.open(normalize(uri), text, language, Owner::Client)
    }

    /// A file was read from disk: the server holds it as a document, unless an
    /// editor holds a document under this path, which then stays as it is. The
    /// path is brought into normal form.
    pub fn load(&mut self, path: &[u8], text: Vec<u8>, language: Language) -> (event: Option<
        WorkspaceEvent,
    >)
        requires
            old(self).wf(),
            !held_by_editor(old(self).workspace@, normalized(path@)) ==> old(self).workspace@.revision
                < u64::MAX,
        ensures
            final(self).wf(),
            final(self).workspace@ == if held_by_editor(old(self).workspace@, normalized(path@)) {
                old(self).workspace@
            } else {
                old(self).workspace@.with_opened(normalized(path@), text@, language, Owner::Server)
            },
            match event {
                Some(WorkspaceEvent::Changed(changed)) => changed@ == normalized(path@)
                    && !held_by_editor(old(self).workspace@, normalized(path@)),
                None => held_by_editor(old(self).workspace@, normalized(path@)),
            },
            final(self).options == old(self).options,
            final(self).client == old(self).client,
            final(self).client_info == old(self).client_info,
            final(self).lifecycle == old(self).lifecycle,
    {
        let normal = normalize(path);
        let held = match self.workspace.lookup(normal.as_slice()) {
            Some(i) => self.workspace.document(i).owner() == Owner::Client,
            None => false,
        };
        if held {
            None
        } else {
            Some(self.workspace.open(normal, text, language, Owner::Server))
        }
    }

    /// An editor changed a document. The changes are applied in order; an
    /// unknown document or an empty batch changes nothing and gives no event.
    /// A position that lies outside the text is clamped, and the result says
    /// so. A document that holds UTF-8 holds it afterwards, if the changes
    /// bring UTF-8.
    pub fn did_change(&mut self, uri: &[u8], changes: &Vec<TextChange>) -> (done: Edited)
        requires
            old(self).wf(),
            old(self).workspace@.has(normalized(uri@)) && changes@.len() > 0 ==> old(
                self,
            ).workspace@.revision < u64::MAX,
        ensures
            final(self).wf(),
            final(self).workspace@ == old(self).workspace@.with_changes(normalized(uri@), changes@),
            match done.event {
                Some(WorkspaceEvent::Changed(changed)) => changed@ == normalized(uri@) && old(
                    self,
                ).workspace@.has(normalized(uri@)) && changes@.len() > 0,
                None => !old(self).workspace@.has(normalized(uri@)) || changes@.len() == 0,
            },
            done.clamped == old(self).workspace@.clamps(normalized(uri@), changes@),
            old(self).workspace@.brings_utf8(normalized(uri@), changes@)
                ==> final(self).workspace@.holds_utf8(normalized(uri@)),
            final(self).options == old(self).options,
            final(self).client == old(self).client,
            final(self).client_info == old(self).client_info,
            final(self).lifecycle == old(self).lifecycle,
    {
        let uri = normalize(uri);
        self.workspace.edit(uri.as_slice(), changes)
    }

    /// The file watcher saw something. The paths are brought into normal
    /// form. Created and modified files are not read here: the files to read
    /// are returned, and each is then handed to `load` with its text. Removed
    /// files leave the workspace if the server holds them.
    pub fn handle_file_event(&mut self, kind: FileEventKind, paths: &Vec<Vec<u8>>) -> (requests: Vec<
        LoadRequest,
    >)
        requires
            old(self).wf(),
            kind == FileEventKind::Remove ==> without_all(
                old(self).workspace@,
                normal_forms(paths@),
            ).revision <= u64::MAX,
        ensures
            final(self).wf(),
            match kind {
                FileEventKind::Create | FileEventKind::Modify => {
                    &&& final(self).workspace@ == old(self).workspace@
                    &&& requested(requests@) == wanted(old(self).workspace@, normal_forms(paths@))
                },
                FileEventKind::Remove => {
                    &&& final(self).workspace@ == without_all(
                        old(self).workspace@,
                        normal_forms(paths@),
                    )
                    &&& requests@.len() == 0
                },
                FileEventKind::Other => final(self).workspace@ == old(self).workspace@
                    && requests@.len() == 0,
            },
            final(self).options == old(self).options,
            final(self).client == old(self).client,
            final(self).client_info == old(self).client_info,
            final(self).lifecycle == old(self).lifecycle,
    {
        let mut normal: Vec<Vec<u8>> = Vec::new();
        let mut k: usize = 0;
        while k < paths.len()
            invariant
                0 <= k <= paths@.len(),
                normal@.len() == k,
                forall|j: int| 0 <= j < k ==> (#[trigger] normal@[j])@ == normalized(paths@[j]@),
            decreases paths@.len() - k,
        {
            normal.push(normalize(paths[k].as_slice()));
            k += 1;
        }
        assert(paths_of(normal@) =~= normal_forms(paths@));
        self.workspace.handle_file_event(kind, &normal)
    }

    /// An editor saved a document: a build follows where the options ask for
    /// one on save, and a linter run where the document is known and the
    /// options ask for one on save. Nothing in the workspace changes.
    pub fn did_save(&self, uri: &[u8]) -> (actions: Vec<Action>)
        requires
            self.wf(),
        ensures
            views(actions@) == actions_on_save(
                normalized(uri@),
                self.options.build.on_save,
                self.workspace@.has(normalized(uri@)) && self.options.chktex.on_open_and_save,
            ),
    {
        let mut actions: Vec<Action> = Vec::new();
        let normal = normalize(uri);
        let uri = normal.as_slice();
        assert(uri@.subrange(0, uri@.len() as int) =~= uri@);
        if self.options.build.on_save {
            actions.push(Action::Build(copy_range(uri, 0, uri.len())));
        }
        if self.workspace.lookup(uri).is_some() && self.options.chktex.on_open_and_save {
            actions.push(Action::RunLinter(copy_range(uri, 0, uri.len()), LintReason::Save));
        }
        assert(views(actions@) =~= actions_on_save(
            uri@,
            self.options.build.on_save,
            self.workspace@.has(uri@) && self.options.chktex.on_open_and_save,
        ));
        actions
    }

    /// An editor closed a document: the server holds it from now on, and it
    /// stays in the workspace.
    pub fn did_close(&mut self, uri: &[u8]) -> (known: bool)
        requires
            old(self).wf(),
        ensures
            final(self).wf(),
            final(self).workspace@ == old(self).workspace@.with_owner(
                normalized(uri@),
                Owner::Server,
            ),
            known == old(self).workspace@.has(normalized(uri@)),
            final(self).options == old(self).options,
            final(self).client == old(self).client,
            final(self).client_info == old(self).client_info,
            final(self).lifecycle == old(self).lifecycle,
    {
        let uri = normalize(uri);
        self.workspace.close(uri.as_slice())
    }

    /// Before a hover is answered, the caret is recorded: at the offset of the
    /// position, where the document is known.
    pub fn hover(&mut self, uri: &[u8], position: Position) -> (offset: Option<usize>)
        requires
            old(self).wf(),
        ensures
            final(self).wf(),
            match old(self).workspace@.index_of(normalized(uri@)) {
                Some(i) => offset == Some(
                    crate::text::offset_of(old(self).workspace@.documents[i].text, position) as usize,
                ) && final(self).workspace@ == old(self).workspace@.with_cursor(
                    normalized(uri@),
                    crate::text::offset_of(old(self).workspace@.documents[i].text, position),
                ),
                None => offset is None && final(self).workspace@ == old(self).workspace@,
            },
            final(self).options == old(self).options,
            final(self).client == old(self).client,
            final(self).client_info == old(self).client_info,
            final(self).lifecycle == old(self).lifecycle,
    {
        let uri = normalize(uri);
        self.workspace.set_cursor_at(uri.as_slice(), position)
    }

    /// The part of the workspace that a request about a document works on: the
    /// documents of the document's project, by index in increasing order. The
    /// part is empty exactly if the document is unknown.
    pub fn feature_request(&self, uri: &[u8]) -> (slice: Vec<usize>)
        requires
            self.wf(),
        ensures
            match self.workspace@.index_of(normalized(uri@)) {
                Some(i) => slice@ == project_of(self.workspace@, i) && slice@.len() > 0,
                None => slice@.len() == 0,
            },
    {
        let uri = normalize(uri);
        match self.workspace.lookup(uri.as_slice()) {
            Some(i) => {
                let slice = self.workspace.related(i);
                proof {
                    lemma_related_reflexive(self.workspace@, i as int);
                    let k = choose|k: int| 0 <= k < slice@.len() && #[trigger] slice@[k] == i;
                }
                slice
            },
            None => Vec::new(),
        }
    }

    /// Whether a request that needs its document can be handled: the index of
    /// the document, or the error with which the request is answered where the
    /// document is unknown.
    pub fn handle_feature_request(&self, uri: &[u8]) -> (found: Result<usize, RequestFailure>)
        requires
            self.wf(),
        ensures
            match found {
                Ok(i) => self.workspace@.index_of(normalized(uri@)) == Some(i as int),
                Err(failure) => self.workspace@.index_of(normalized(uri@)) is None && failure.code
                    == INVALID_REQUEST && failure.message@ == "unknown document"@,
            },
    {
        let uri = normalize(uri);
        match self.workspace.lookup(uri.as_slice()) {
            Some(i) => Ok(i),
            None => Err(
                RequestFailure { code: INVALID_REQUEST, message: "unknown document".to_owned() },
            ),
        }
    }

    /// As `handle_feature_request`, for a request that may name no document:
    /// such a request is answered as one for an unknown document.
    pub fn feature_target(&self, uri: Option<&[u8]>) -> (found: Result<usize, RequestFailure>)
        requires
            self.wf(),
        ensures
            match found {
                Ok(i) => uri is Some && self.workspace@.index_of(normalized(uri->0@)) == Some(
                    i as int,
                ),
                Err(failure) => (uri is None || self.workspace@.index_of(normalized(uri->0@))
                    is None) && failure.code == INVALID_REQUEST && failure.message@
                    == "unknown document"@,
            },
    {
        match uri {
            Some(uri) => self.handle_feature_request(uri),
            None => Err(
                RequestFailure { code: INVALID_REQUEST, message: "unknown document".to_owned() },
            ),
        }
    }

    /// The connection to the client was closed: the server has exited, and
    /// the main loop stops.
    pub fn connection_closed(&mut self) -> (step: Step)
        ensures
            step == Step::Stop,
            final(self).lifecycle == Lifecycle::Exited,
            final(self).workspace == old(self).workspace,
            final(self).options == old(self).options,
            final(self).client == old(self).client,
            final(self).client_info == old(self).client_info,
    {
        self.lifecycle = Lifecycle::Exited;
        Step::Stop
    }

    /// The error with which a request is refused: while the server shuts
    /// down the request is invalid, and otherwise its method is unknown.
    pub fn refusal(&self) -> (failure: RequestFailure)
        ensures
            failure.code == if self.lifecycle == Lifecycle::Running {
                METHOD_NOT_FOUND
            } else {
                INVALID_REQUEST
            },
            failure.message@ == if self.lifecycle == Lifecycle::Running {
                "unknown request"@
            } else {
                "the server is shutting down"@
            },
    {
        match self.lifecycle {
            Lifecycle::Running => RequestFailure {
                code: METHOD_NOT_FOUND,
                message: "unknown request".to_owned(),
            },
            _ => RequestFailure {
                code: INVALID_REQUEST,
                message: "the server is shutting down".to_owned(),
            },
        }
    }

    /// The documents for which diagnostics are published: all of the snapshot
    /// but build logs, in order.
    pub fn publish_diagnostics(workspace: &Workspace) -> (targets: Vec<usize>)
        requires
            workspace.wf(),
        ensures
            forall|j: int, k: int| 0 <= j < k < targets@.len() ==> targets@[j] < targets@[k],
            forall|k: int|
                0 <= k < targets@.len() ==> (#[trigger] targets@[k]) < workspace@.documents.len()
                    && workspace@.documents[targets@[k] as int].language != Language::BuildLog,
            forall|i: int|
                0 <= i < workspace@.documents.len() && workspace@.documents[i].language
                    != Language::BuildLog ==> exists|k: int|
                    0 <= k < targets@.len() && #[trigger] targets@[k] == i,
    {
        let mut targets: Vec<usize> = Vec::new();
        let mut i: usize = 0;
        while i < workspace.len()
            invariant
                workspace.wf(),
                0 <= i <= workspace@.documents.len(),
                forall|k: int| 0 <= k < targets@.len() ==> #[trigger] targets@[k] < i,
                forall|j: int, k: int| 0 <= j < k < targets@.len() ==> targets@[j] < targets@[k],
                forall|k: int|
                    0 <= k < targets@.len() ==> workspace@.documents[(#[trigger] targets@[k]) as int].language
                        != Language::BuildLog,
                forall|a: int|
                    0 <= a < i && workspace@.documents[a].language != Language::BuildLog
                        ==> exists|k: int| 0 <= k < targets@.len() && #[trigger] targets@[k] == a,
            decreases workspace@.documents.len() - i,
        {
            if workspace.document(i).language() != Language::BuildLog {
                let ghost before = targets@;
                targets.push(i);
                assert forall|a: int|
                    0 <= a < i + 1 && workspace@.documents[a].language
                        != Language::BuildLog implies exists|k: int|
                    0 <= k < targets@.len() && #[trigger] targets@[k] == a by {
                    if a == i {
                        assert(targets@[before.len() as int] == a);
                    } else {
                        let k = choose|k: int| 0 <= k < before.len() && before[k] == a;
                        assert(targets@[k] == a);
                    }
                }
            }
            i += 1;
        }
        targets
    }
}

/// The configuration among the answers of the client to a configuration
/// request: the last one. An empty answer holds none, and the options stay as
/// they are.
pub fn pick_configuration<T>(answers: Vec<T>) -> (picked: Option<T>)
    ensures
        picked == if answers@.len() > 0 {
            Some(answers@[answers@.len() - 1])
        } else {
            None
        },
{
    let mut answers = answers;
    answers.pop()
}

} // verus!
