//! The client's command line.

use vstd::prelude::*;

verus! {

/// The client's command line: the log level and the command to run.
#[derive(Debug, Clone)]
pub struct Cli {
    /// Log at "debug" level rather than "info".
    pub verbose: bool,
    pub command: Commands,
}

/// What the client is asked to do.
#[derive(Debug, Clone)]
pub enum Commands {
    /// Download a file from a peer.
    DownloadPeer { file: String, output_path: String },
    /// Download a file described by a `.torrent` file.
    Download { file: String, output_path: String },
    /// Share a file with downloading peers.
    Upload { file: String },
}

impl Cli {
    /// The log level the command line asks for.
    pub fn log_level(&self) -> (r: &'static str)
        ensures
            self.verbose ==> r@ == "debug"@,
            !self.verbose ==> r@ == "info"@,
    {
        if self.verbose {
            "debug"
        } else {
            "info"
        }
    }
}

} // verus!
