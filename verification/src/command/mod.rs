pub mod diff;
pub mod status;

use vstd::prelude::*;

verus! {

/// Render git output as a PNG image.
pub struct Cli {
    pub command: Commands,
}

/// The subcommands and their arguments.
pub enum Commands {
    /// Render git diff as a PNG image.
    Diff {
        /// Path(s) to diff (file or directory).
        paths: Vec<String>,
        /// Show whitespace changes (ignored by default).
        whitespace: bool,
    },
    /// Render git status as a PNG image.
    Status {
        /// Path(s) to check status (file or directory).
        paths: Vec<String>,
    },
}

/// The rendering that a command line asks for.
pub enum Task {
    /// Render the diff of `paths`, with whitespace changes when `whitespace` is set.
    Diff { paths: Vec<String>, whitespace: bool },
    /// Render the status of `paths`.
    Status { paths: Vec<String> },
}

/// Dispatches the parsed command line to the rendering it asks for: `diff` renders the
/// diff of its paths with its whitespace setting, `status` the status of its paths.
pub fn run(cli: Cli) -> (task: Task)
    ensures
        match (cli.command, task) {
            (Commands::Diff { paths, whitespace }, Task::Diff { paths: p, whitespace: w }) => p@
                == paths@ && w == whitespace,
            (Commands::Status { paths }, Task::Status { paths: p }) => p@ == paths@,
            _ => false,
        },
{
    match cli.command {
        Commands::Diff { paths, whitespace } => Task::Diff { paths, whitespace },
        Commands::Status { paths } => Task::Status { paths },
    }
}

} // verus!
