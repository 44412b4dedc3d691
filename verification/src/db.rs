//! Where the launch database lives.

use vstd::prelude::*;
use vstd::string::StringExecFns;

verus! {

/// The directory, under the data directory, that holds the database.
pub const DB_DIR_NAME: &'static str = "kakashi";

/// The database's file name.
pub const DB_FILE_NAME: &'static str = "frecency.db";

/// The user's data directory: `$XDG_DATA_HOME` where it is set, else
/// `$HOME/.local/share`; `None` when neither variable is set.
pub fn data_dir(xdg_data_home: Option<String>, home: Option<String>) -> (dir: Option<String>)
    ensures
        match (xdg_data_home, home) {
            (Some(xdg), _) => dir matches Some(d) && d@ == xdg@,
            (None, Some(h)) => dir matches Some(d) && d@ == h@ + "/.local/share"@,
            (None, None) => dir is None,
        },
{
    match xdg_data_home {
        Some(xdg) => Some(xdg),
        None => match home {
            Some(h) => Some(h.concat("/.local/share")),
            None => None,
        },
    }
}

} // verus!
