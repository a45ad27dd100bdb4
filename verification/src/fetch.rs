//! The telemetry fetcher's decisions: which command queries a device, and
//! what a finished or failed query means.
//!
//! The query itself is a blocking subprocess and runs outside this library;
//! the caller spawns the command built here, waits, and hands the exit
//! status and captured streams to [`classify_query_outcome`].

use vstd::prelude::*;
use vstd::string::*;

verus! {

/// Why a telemetry query returned no text.
#[derive(Clone, Debug, PartialEq)]
pub enum FetchError {
    /// The query tool ran and exited nonzero; carries its standard error.
    CommandFailed(String),
    /// The query tool could not be started; carries the system's message.
    SpawnFailed(String),
}

/// The command line that queries one device: the fixed tool and its info
/// subcommand with the device identifier as sole positional argument,
/// optionally wrapped through the fixed host-execution bridge used inside a
/// sandboxed environment.
pub fn query_command(device_identifier: &str, use_bridge: bool) -> (argv: Vec<String>)
    ensures
        use_bridge ==> argv@.len() == 5 && argv@[0]@ == "flatpak-spawn"@ && argv@[1]@ == "--host"@
            && argv@[2]@ == "upower"@ && argv@[3]@ == "-i"@ && argv@[4]@ == device_identifier@,
        !use_bridge ==> argv@.len() == 3 && argv@[0]@ == "upower"@ && argv@[1]@ == "-i"@
            && argv@[2]@ == device_identifier@,
{
    let mut argv: Vec<String> = Vec::new();
    if use_bridge {
        argv.push(String::from_str("flatpak-spawn"));
        argv.push(String::from_str("--host"));
    }
    argv.push(String::from_str("upower"));
    argv.push(String::from_str("-i"));
    argv.push(String::from_str(device_identifier));
    argv
}

/// What a finished query means: exit status zero hands back standard output
/// verbatim, and anything else fails with the tool's standard error, so a
/// parse is never attempted on a failed query's text.
pub fn classify_query_outcome(exit_ok: bool, stdout_text: String, stderr_text: String) -> (r:
    Result<String, FetchError>)
    ensures
        exit_ok ==> (r matches Ok(t) && t@ == stdout_text@),
        !exit_ok ==> (r matches Err(x) && x matches FetchError::CommandFailed(m) && m@
            == stderr_text@),
{
    if exit_ok {
        Ok(stdout_text)
    } else {
        Err(FetchError::CommandFailed(stderr_text))
    }
}

} // verus!
