use vstd::prelude::*;

use std::path::PathBuf;

verus! {

/// `std::path::PathBuf`, carried through as it is: nothing in this crate reads it.
#[verifier::external_type_specification]
#[verifier::external_body]
pub struct ExPathBuf(PathBuf);

/// The command line: one subcommand.
pub struct Cli {
    pub command: Commands,
}

/// The subcommands.
pub enum Commands {
    /// Render git diff as a PNG image.
    Diff(DiffArgs),
    /// Render git status as a PNG image.
    Status(StatusArgs),
}

/// Output file path. Defaults to a file under the system temp dir when omitted.
pub struct OutputArgs {
    pub output: Option<PathBuf>,
}

/// The arguments of `diff`.
pub struct DiffArgs {
    /// Path(s) to diff (file or directory).
    pub paths: Vec<String>,
    /// Show whitespace changes (ignored by default).
    pub whitespace: bool,
    pub output: OutputArgs,
}

/// The arguments of `status`.
pub struct StatusArgs {
    /// Path(s) to check status (file or directory).
    pub paths: Vec<String>,
    pub output: OutputArgs,
}

} // verus!
