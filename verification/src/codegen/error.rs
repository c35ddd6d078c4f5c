//! What can go wrong in a generation run.
use vstd::prelude::*;

verus! {

/// `globset::Error`, the reason a glob pattern does not parse; carried
/// through unread.
#[verifier::external_type_specification]
#[verifier::external_body]
pub struct ExGlobError(globset::Error);

/// Why a generation run stops.
#[derive(Debug)]
pub enum CodegenError {
    /// The configuration file has a version other than 1.
    UnexpectedVersion,
    /// An output leaves a template property without a value, and the
    /// template gives that property no default.
    MissingPropertyOverride,
    /// No ancestor of the starting directory holds a configuration file.
    ConfigNotFound { searched_from: String },
    /// Printing to standard output was asked for without naming one file.
    StdoutNeedsSingleFile,
    /// The output path pattern is not a valid glob.
    InvalidGlob(globset::Error),
    /// The output path pattern matches no output path.
    NoMatchingOutputs { pattern: String },
    /// An output file has local changes and overwriting was not forced.
    AlreadyModified { path: String },
    /// In check mode, this many generated files differ from the files on disk.
    FilesDifferent { count: usize },
}

} // verus!
