//! The command line: its commands, what running them gives, log verbosity
//! and exit statuses.
use vstd::prelude::*;
use crate::error::GfileError;

verus! {

broadcast use vstd::string::group_string_axioms;

/// A parsed command line.
#[derive(Clone, Debug)]
pub struct Cli {
    /// How many times `-v` was given.
    pub verbose: u8,
    pub command: Commands,
}

/// The subcommands.
#[derive(Clone, Debug)]
pub enum Commands {
    /// Download a file from a public GigaFile page.
    Download { url: String },
    /// Upload a local file.
    Upload { file: String },
}

/// The notice printed when a command starts, before its outcome.
pub fn pending_notice(command: &Commands) -> (s: &'static str)
    ensures
        command is Download ==> s@ == "download is not implemented yet"@,
        command is Upload ==> s@ == "upload is not implemented yet"@,
{
    match command {
        Commands::Download { .. } => "download is not implemented yet",
        Commands::Upload { .. } => "upload is not implemented yet",
    }
}

/// Runs a command. Neither transfer is offered from the command line yet:
/// a download fails with a parse error and an upload is rejected.
pub fn run(cli: Cli) -> (r: Result<(), GfileError>)
    ensures
        cli.command is Download ==> (r matches Err(GfileError::Parse { what: w, hint: h }) && w@
            == "download command is not implemented yet"@ && h@
            == "This M0 bootstrap intentionally contains no transfer implementation."@),
        cli.command is Upload ==> (r matches Err(GfileError::UploadRejected { detail: d }) && d@
            == "upload command is not implemented yet"@),
{
    match cli.command {
        Commands::Download { .. } => Err(
            GfileError::Parse {
                what: String::from_str("download command is not implemented yet"),
                hint: String::from_str(
                    "This M0 bootstrap intentionally contains no transfer implementation.",
                ),
            },
        ),
        Commands::Upload { .. } => Err(
            GfileError::UploadRejected {
                detail: String::from_str("upload command is not implemented yet"),
            },
        ),
    }
}

/// The log level for a verbosity: `warn`, `info` for one `-v`, `debug` for more.
pub open spec fn level_for(verbosity: u8) -> Seq<char> {
    if verbosity == 0 {
        "warn"@
    } else if verbosity == 1 {
        "info"@
    } else {
        "debug"@
    }
}

/// The log filter used when none is set in the environment:
/// `gfile_rust=<level>,gfile=<level>`.
pub fn log_filter(verbosity: u8) -> (f: String)
    ensures
        f@ == "gfile_rust="@ + level_for(verbosity) + ",gfile="@ + level_for(verbosity),
{
    let level = if verbosity == 0 {
        "warn"
    } else if verbosity == 1 {
        "info"
    } else {
        "debug"
    };
    let mut f = String::from_str("gfile_rust=");
    f.append(level);
    f.append(",gfile=");
    f.append(level);
    f
}

/// The process exit status for an exit code: the code itself when it fits in
/// a byte, 1 otherwise.
pub fn exit_code(code: i32) -> (s: u8)
    ensures
        0 <= code <= 255 ==> s == code,
        !(0 <= code <= 255) ==> s == 1,
{
    if 0 <= code && code <= 255 {
        code as u8
    } else {
        1
    }
}

} // verus!
