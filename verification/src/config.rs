//! Startup configuration: where to listen and which directories to scan.
//!
//! The configuration is read from a JSON file outside this crate; when no
//! file exists, the default below is written out and used.

use vstd::prelude::*;

verus! {

/// Startup parameters: host, port, and the ordered list of directories whose
/// JSON files are loaded into the endpoint table.
pub struct Config {
    pub host: String,
    pub port: u16,
    pub json_directories: Vec<String>,
}

impl Default for Config {
    /// The configuration used when no configuration file exists:
    /// `localhost:3000`, scanning the single directory `./json`.
    fn default() -> (r: Config)
        ensures
            r.host@ == "localhost"@,
            r.port == 3000,
            r.json_directories@.len() == 1,
            r.json_directories@[0]@ == "./json"@,
    {
        let mut dirs: Vec<String> = Vec::new();
        dirs.push("./json".to_owned());
        Config { host: "localhost".to_owned(), port: 3000, json_directories: dirs }
    }
}

} // verus!
