use vstd::prelude::*;

verus! {

/// Every failure rheo reports, with the data a caller needs to render it.
#[derive(Debug, Clone, PartialEq, Eq)]
pub enum RheoError {
    /// A path that could not be used as asked (no file name, bad encoding, ...).
    InvalidPath { path: String, message: String },
    /// An I/O failure, with what was being attempted.
    Io { message: String, context: String },
    /// HTML that could not be produced or post-processed.
    HtmlGeneration { count: usize, errors: String },
    /// A Typst compilation failure.
    Compilation { count: usize, errors: String },
    /// An export failure for one format.
    Export { format: String, count: usize, errors: String },
    /// Data that is not in the shape an operation needs.
    InvalidData { message: String },
    /// A project configuration that breaks one of rheo's rules.
    ProjectConfig { message: String },
    /// An asset that could not be copied into the output.
    AssetCopy { source: String, dest: String, message: String },
    /// A file watcher that could not be set up.
    FileWatcher { message: String, context: String },
    /// Logging that could not be initialised.
    LoggingInit { message: String },
}

/// Result type used throughout rheo.
pub type Result<T> = core::result::Result<T, RheoError>;

} // verus!
