//! The command line: what to do (host, join or practice) and with which options.
pub mod base_opts;

use vstd::prelude::*;
use vstd::string::StringExecFns;

verus! {

/// The parsed command line.
#[derive(Debug, Clone)]
pub struct Cli {
    pub command: Commands,
}

/// The mode to run.
#[derive(Debug, Clone)]
pub enum Commands {
    /// Host a game
    Host(HostOptions),
    /// Join a game
    Join(JoinOptions),
    /// Solo practice session
    Practice(PracticeOptions),
}

/// Options of a hosted game.
#[derive(Debug, Clone)]
pub struct HostOptions {
    /// Your username
    pub user: String,
    /// Path to the file to race on
    pub file: String,
}

/// Options of a joined game.
#[derive(Debug, Clone)]
pub struct JoinOptions {
    /// The host to join
    pub host: String,
    /// Your username
    pub user: String,
}

/// Options of a practice session.
#[derive(Debug, Clone)]
pub struct PracticeOptions {
    /// Pick a text file to practice on
    pub file: String,
    /// Race against your past self using an input record from a previous session with this file
    pub ghost_race: bool,
    /// Update the input record for this file
    pub save: Option<Save>,
    /// Your username
    pub username: Option<String>,
}

/// How the input record of a practiced file is updated.
#[derive(Copy, Clone, Debug, PartialEq, Eq, PartialOrd, Ord, Structural)]
pub enum Save {
    /// Keep whichever of the old and the new record finished faster.
    Best,
    /// Replace the old record.
    Override,
}

/// The message that refuses a file argument naming nothing on disk.
pub open spec fn missing_file_message(val: Seq<char>) -> Seq<char> {
    "file `"@ + val + "` does not exist."@
}

/// Accepts a file argument when the file exists (`exists` says whether something is at
/// that path); refuses it otherwise, with a message that names it.
pub fn is_valid_file(val: &str, exists: bool) -> (r: Result<(), String>)
    ensures
        r is Ok <==> exists,
        r matches Err(msg) ==> msg@ == missing_file_message(val@),
{
    if exists {
        Ok(())
    } else {
        let msg = String::from_str("file `");
        let msg = msg.concat(val);
        let msg = msg.concat("` does not exist.");
        Err(msg)
    }
}

} // verus!
