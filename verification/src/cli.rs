use vstd::prelude::*;
use vstd::string::StringExecFns;

verus! {

/// The options the command-line front end hands the library: either a
/// file or a literal expression to run locally, or the storage directory,
/// port and timeout of a server to start. A timeout of 0 means none.
#[derive(Debug, Clone)]
pub struct Cli {
    pub file: Option<String>,
    pub eval: Option<String>,
    pub directory: String,
    pub port: u16,
    pub timeout: u64,
    pub verbose: bool,
}

impl Default for Cli {
    /// The documented defaults: directory `db`, port 2345, a timeout of
    /// five seconds, and quiet logging.
    fn default() -> (c: Cli)
        ensures
            c.file is None,
            c.eval is None,
            c.directory@ == "db"@,
            c.port == 2345,
            c.timeout == 5000,
            !c.verbose,
    {
        Cli {
            file: Option::None,
            eval: Option::None,
            directory: String::from_str("db"),
            port: 2345,
            timeout: 5000,
            verbose: false,
        }
    }
}

} // verus!
