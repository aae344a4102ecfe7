//! File names of the tool's two durable stores, derived from the base
//! directories that the surrounding application resolves.

use vstd::prelude::*;

verus! {

/// The credential file inside the configuration directory.
pub fn config_path(base_dir: &str) -> (r: String)
    ensures
        r@ == base_dir@ + "/config.json"@,
{
    String::from_str(base_dir).concat("/config.json")
}

/// The follow-list database inside the data directory.
pub fn db_path(base_dir: &str) -> (r: String)
    ensures
        r@ == base_dir@ + "/ttv.sqlite"@,
{
    String::from_str(base_dir).concat("/ttv.sqlite")
}

} // verus!
