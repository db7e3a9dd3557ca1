//! Where data files are looked for.

use vstd::prelude::*;

verus! {

/// The system share directory of the game's data (on unix)
pub const SHARE_PATH: &'static str = "/usr/share/luola2";

/// The locally installed share directory of the game's data (on unix)
pub const LOCAL_SHARE_PATH: &'static str = "/usr/local/share/luola2";

/// The places a data file or directory named `path` is looked for, in order, each
/// as the path components to join: the user's data directory, the data directory
/// beside the executable, and on unix the local and the system share directories.
pub fn datafile_candidates<'a>(user_dir: &'a str, base_dir: &'a str, path: &'a str, unix: bool) -> (r: Vec<Vec<&'a str>>)
    ensures
        r@.len() == if unix { 4int } else { 2int },
        r@[0]@ == seq![user_dir, "data", path],
        r@[1]@ == seq![base_dir, "data", path],
        unix ==> r@[2]@ == seq![LOCAL_SHARE_PATH, path],
        unix ==> r@[3]@ == seq![SHARE_PATH, path],
{
    let mut r: Vec<Vec<&'a str>> = Vec::new();
    r.push(vec![user_dir, "data", path]);
    r.push(vec![base_dir, "data", path]);
    if unix {
        r.push(vec![LOCAL_SHARE_PATH, path]);
        r.push(vec![SHARE_PATH, path]);
    }
    r
}

} // verus!
