//! Player progress: the highest level index unlocked so far.
//!
//! Reading and writing the save file is the host's business; it parses
//! the file into a plain index and persists the index after changes.

use vstd::prelude::*;

verus! {

/// The persisted progress state.
#[derive(Debug)]
pub struct SaveData {
    max_unlocked_level: usize,
}

impl SaveData {
    /// The highest unlocked level index.
    pub closed spec fn spec_max_unlocked_level(self) -> usize {
        self.max_unlocked_level
    }

    /// Record a newly unlocked level.
    pub fn set_max_unlocked_level(&mut self, level_index: usize)
        ensures
            final(self).spec_max_unlocked_level() == level_index,
    {
        self.max_unlocked_level = level_index;
    }

    /// The highest unlocked level index.
    pub fn get_max_unlocked_level(&self) -> (r: usize)
        ensures
            r == self.spec_max_unlocked_level(),
    {
        self.max_unlocked_level
    }
}

impl Default for SaveData {
    /// Fresh progress: only the first level unlocked.
    fn default() -> (s: SaveData)
        ensures
            s.spec_max_unlocked_level() == 0,
    {
        SaveData { max_unlocked_level: 0 }
    }
}

} // verus!
