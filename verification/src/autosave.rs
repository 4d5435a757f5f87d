//! Which delayed autosave may still write.

use vstd::prelude::*;
use crate::state::TabId;
use crate::text::str_eq;

verus! {

/// What an autosave was scheduled for: a tab, its edit generation at the
/// time, and its path then.
#[derive(Clone, Debug, PartialEq, Eq)]
pub struct AutosaveKey {
    pub tab_id: TabId,
    pub generation: u64,
    pub path: String,
}

/// An autosave may write only into the same tab, at the same edit
/// generation and path, while the tab is dirty.
pub open spec fn spec_autosave_is_current(key: AutosaveKey, tab_id: TabId, generation: u64, path: Seq<char>, dirty: bool) -> bool {
    key.tab_id == tab_id && key.generation == generation && key.path@ == path && dirty
}

pub fn autosave_is_current(key: &AutosaveKey, tab_id: TabId, generation: u64, path: &str, dirty: bool) -> (r: bool)
    ensures
        r == spec_autosave_is_current(*key, tab_id, generation, path@, dirty),
{
    key.tab_id == tab_id && key.generation == generation && str_eq(key.path.as_str(), path) && dirty
}

} // verus!
