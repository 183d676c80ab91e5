//! The workspace and analysis engine of a language server for LaTeX and
//! BibTeX: the documents of a workspace, what is read off their texts, the
//! projects that includes make of them, and the decisions of the server that
//! stands on top. Everything here is verified; channels, threads, files and
//! processes are left to the program around it.

pub mod action;
pub mod analysis;
pub mod bibtex;
pub mod bytes;
pub mod citation;
pub mod completion;
pub mod components;
pub mod config;
pub mod debouncer;
pub mod discovery;
pub mod distro;
pub mod document;
pub mod encoding;
pub mod graph;
pub mod jobs;
pub mod paths;
pub mod project;
pub mod server;
pub mod syntax;
pub mod text;
pub mod uri;
pub mod watcher;
pub mod workspace;
