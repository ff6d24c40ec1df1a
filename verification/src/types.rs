use vstd::prelude::*;
use vstd::string::StringExecFns;

verus! {

/// A feed document kept on disk, named by its file.
pub struct Feed {
    #[allow(dead_code)]
    filename: String,
}

/// A single entry document kept on disk, named by its file.
pub struct Item {
    #[allow(dead_code)]
    filename: String,
}

/// Runtime configuration: where fetched feed documents are kept.
pub struct Config {
    pub feed_path: String,
}

impl Config {
    /// Default configuration: the application's own directory under the
    /// platform's data directory, which the caller passes in.
    pub fn defaults(data_dir: String) -> (c: Config)
        ensures
            c.feed_path@ == data_dir@ + "/hermod"@,
    {
        Config { feed_path: data_dir.concat("/hermod") }
    }
}

} // verus!
