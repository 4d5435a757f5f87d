//! Where the Recent Files list is stored.

pub mod recent;

use vstd::prelude::*;
use crate::pathname::{join, spec_join};

verus! {

/// The file name of the Recent Files configuration.
pub const RECENT_FILES_CONFIG_NAME: &'static str = "recent-files.json";

/// The Recent Files configuration inside the platform configuration
/// directory `config_dir`.
pub fn recent_files_path_in_dir(config_dir: &str) -> (r: String)
    ensures
        r@ == spec_join(config_dir@, RECENT_FILES_CONFIG_NAME@),
{
    join(config_dir, RECENT_FILES_CONFIG_NAME)
}

} // verus!
