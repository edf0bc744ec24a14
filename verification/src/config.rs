use vstd::prelude::*;
use vstd::string::StringExecFns;

verus! {

/// The service's configuration: where to listen, and which directory to
/// serve.
#[derive(Debug, Clone, PartialEq, Eq)]
pub struct Config {
    pub ip: String,
    pub port: u64,
    pub data: String,
}

impl Default for Config {
    /// The configuration used when none is given.
    fn default() -> (c: Config)
        ensures
            c.ip@ == "127.0.0.1"@,
            c.port == 8080,
            c.data@ == "data/"@,
    {
        Config { ip: String::from_str("127.0.0.1"), port: 8080, data: String::from_str("data/") }
    }
}

impl Config {
    /// The configured data directory as a path string.
    pub fn data_path(&self) -> (r: &str)
        ensures
            r@ == self.data@,
    {
        self.data.as_str()
    }
}

} // verus!
