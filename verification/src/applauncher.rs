//! The first form of the launcher's application sources, which hands out the
//! parsed desktop files themselves.

use freedesktop_file_parser::DesktopFile;
use vstd::prelude::*;

pub use crate::app_source::{DesktopEntry as Entry, PotentialDesktopEntry, SEARCH_LOCATIONS};

verus! {

/// Sources the applications
pub trait AppSource {
    fn scan(&self) -> Vec<DesktopFile>;
}

} // verus!
