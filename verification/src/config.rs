//! The configuration of the server, as editors send it, and what the client
//! said it can do.

use vstd::prelude::*;

verus! {

/// The delay before diagnostics are published, in milliseconds, where the
/// editor names none.
pub const DEFAULT_DIAGNOSTICS_DELAY: u64 = 300;

/// How a project is compiled.
pub struct BuildOptions {
    pub executable: Option<Vec<u8>>,
    pub args: Vec<Vec<u8>>,
    pub on_save: bool,
    pub forward_search_after: bool,
    pub aux_directory: Option<Vec<u8>>,
    pub log_directory: Option<Vec<u8>>,
    pub pdf_directory: Option<Vec<u8>>,
}

/// How the viewer is asked to show a source position.
pub struct ForwardSearchOptions {
    pub executable: Option<Vec<u8>>,
    pub args: Option<Vec<Vec<u8>>>,
}

/// When the external linter runs.
#[derive(Debug, PartialEq, Eq, Clone, Copy, Structural)]
pub struct ChktexOptions {
    pub on_open_and_save: bool,
    pub on_edit: bool,
}

/// Which formatter is used.
#[derive(Debug, PartialEq, Eq, Clone, Copy, Structural)]
pub enum Formatter {
    Texlab,
    Latexindent,
}

/// The options object of the server.
pub struct Options {
    pub build: BuildOptions,
    pub forward_search: ForwardSearchOptions,
    pub chktex: ChktexOptions,
    pub diagnostics_delay: u64,
    pub root_directory: Option<Vec<u8>>,
    pub aux_directory: Option<Vec<u8>>,
    pub bibtex_formatter: Formatter,
    pub latex_formatter: Formatter,
    pub formatter_line_length: Option<u32>,
}

impl Options {
    /// Whether these are the options of a server that was told nothing:
    /// nothing is configured, nothing runs by itself, and diagnostics wait for
    /// the default delay.
    pub open spec fn is_default(&self) -> bool {
        &&& self.build.executable is None
        &&& self.build.args@.len() == 0
        &&& !self.build.on_save
        &&& !self.build.forward_search_after
        &&& self.build.aux_directory is None
        &&& self.build.log_directory is None
        &&& self.build.pdf_directory is None
        &&& self.forward_search.executable is None
        &&& self.forward_search.args is None
        &&& !self.chktex.on_open_and_save
        &&& !self.chktex.on_edit
        &&& self.diagnostics_delay == DEFAULT_DIAGNOSTICS_DELAY
        &&& self.root_directory is None
        &&& self.aux_directory is None
        &&& self.bibtex_formatter == Formatter::Texlab
        &&& self.latex_formatter == Formatter::Latexindent
        &&& self.formatter_line_length is None
    }

    /// The options of a server that was told nothing.
    pub fn new() -> (options: Options)
        ensures
            options.is_default(),
    {
        Options {
            build: BuildOptions {
                executable: None,
                args: Vec::new(),
                on_save: false,
                forward_search_after: false,
                aux_directory: None,
                log_directory: None,
                pdf_directory: None,
            },
            forward_search: ForwardSearchOptions { executable: None, args: None },
            chktex: ChktexOptions { on_open_and_save: false, on_edit: false },
            diagnostics_delay: DEFAULT_DIAGNOSTICS_DELAY,
            root_directory: None,
            aux_directory: None,
            bibtex_formatter: Formatter::Texlab,
            latex_formatter: Formatter::Latexindent,
            formatter_line_length: None,
        }
    }
}

impl Default for Options {
    fn default() -> (options: Options)
        ensures
            options.is_default(),
    {
        Options::new()
    }
}

/// What the client said it can do, as far as the server asks. A capability
/// of which the client said nothing is `None`.
#[derive(Debug, PartialEq, Eq, Clone, Copy, Structural)]
pub struct ClientCapabilities {
    /// Whether the client answers `workspace/configuration` requests.
    pub configuration: Option<bool>,
    /// Whether the client lets the server register for changes of the
    /// configuration.
    pub configuration_registration: Option<bool>,
}

/// Who the client is, as it told the server.
#[derive(Debug, PartialEq, Eq, Clone)]
pub struct ClientInfo {
    pub name: String,
    pub version: Option<String>,
}

/// How the client handles configuration: it has a capability only if it
/// said so.
pub open spec fn flags_of(capabilities: ClientCapabilities) -> ClientFlags {
    ClientFlags {
        pull_configuration: capabilities.configuration == Some(true),
        push_configuration: capabilities.configuration_registration == Some(true),
    }
}

impl ClientCapabilities {
    /// How the client handles configuration.
    pub fn flags(&self) -> (flags: ClientFlags)
        ensures
            flags == flags_of(*self),
    {
        ClientFlags {
            pull_configuration: match self.configuration {
                Some(yes) => yes,
                None => false,
            },
            push_configuration: match self.configuration_registration {
                Some(yes) => yes,
                None => false,
            },
        }
    }
}

/// What the client said of how it handles configuration.
#[derive(Debug, PartialEq, Eq, Clone, Copy, Structural)]
pub struct ClientFlags {
    /// The client answers `workspace/configuration` requests.
    pub pull_configuration: bool,
    /// The client lets the server register for configuration changes.
    pub push_configuration: bool,
}

/// How often an input is expected to change. This is a hint for scheduling;
/// whether a derived value is current is decided by revisions alone.
#[derive(Debug, PartialEq, Eq, Clone, Copy, Structural)]
pub enum Durability {
    Low,
    Medium,
    High,
}

/// The inputs of the engine.
#[derive(Debug, PartialEq, Eq, Clone, Copy, Structural)]
pub enum Input {
    ClientCapabilities,
    Distribution,
    Configuration,
    Text,
    Cursor,
}

impl Input {
    /// How often this input is expected to change.
    pub open spec fn spec_durability(self) -> Durability {
        match self {
            Input::ClientCapabilities | Input::Distribution => Durability::High,
            Input::Configuration => Durability::Medium,
            Input::Text | Input::Cursor => Durability::Low,
        }
    }

    /// How often this input is expected to change.
    #[verifier::when_used_as_spec(spec_durability)]
    pub fn durability(self) -> (hint: Durability)
        ensures
            hint == self.spec_durability(),
    {
        match self {
            Input::ClientCapabilities | Input::Distribution => Durability::High,
            Input::Configuration => Durability::Medium,
            Input::Text | Input::Cursor => Durability::Low,
        }
    }
}

} // verus!
