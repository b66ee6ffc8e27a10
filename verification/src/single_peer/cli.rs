//! The simpler client's command line.

use vstd::prelude::*;

verus! {

/// The simpler client's command line.
#[derive(Debug, Clone)]
pub struct Cli {
    /// The `.torrent` file to download.
    pub file: String,
    /// Log at "debug" level rather than "info".
    pub verbose: bool,
    /// Where to write the downloaded file.
    pub output_path: String,
}

impl Cli {
    /// The log level the command line asks for.
    pub fn log_level(&self) -> (r: &'static str)
        ensures
            self.verbose ==> r@ == "debug"@,
            !self.verbose ==> r@ == "info"@,
    {
        if self.verbose {
            "debug"
        } else {
            "info"
        }
    }
}

} // verus!
