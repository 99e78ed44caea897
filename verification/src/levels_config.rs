//! The level catalog: an ordered list of named levels, queried by index.
//!
//! The host parses its catalog asset into plain rows and names and hands
//! them over; the catalog itself performs no I/O.

use vstd::prelude::*;

verus! {

/// One catalog entry: a level's display name and its rows.
#[derive(Clone, Debug)]
pub struct LevelConfigData {
    pub name: String,
    pub data: Vec<String>,
}

/// The raw catalog contents: the levels in play order.
#[derive(Debug)]
pub struct LevelsConfigInternal {
    pub levels: Vec<LevelConfigData>,
}

/// The level catalog a session picks levels from.
#[derive(Debug)]
pub struct LevelsConfig {
    levels: LevelsConfigInternal,
}

impl LevelsConfig {
    /// The catalog's entries, in play order.
    pub closed spec fn spec_levels(self) -> Seq<LevelConfigData> {
        self.levels.levels@
    }

    /// Wrap already-parsed catalog contents.
    pub fn from_internal(levels: LevelsConfigInternal) -> (c: LevelsConfig)
        ensures
            c.spec_levels() == levels.levels@,
    {
        LevelsConfig { levels }
    }

    /// The catalog entry at `index`, or `None` past the end.
    pub fn get_level(&self, index: usize) -> (r: Option<&LevelConfigData>)
        ensures
            (index as int) < self.spec_levels().len() ==> (r is Some && *r->0 == self.spec_levels()[
                index as int
            ]),
            (index as int) >= self.spec_levels().len() ==> r is None,
    {
        if index < self.levels.levels.len() {
            Some(&self.levels.levels[index])
        } else {
            None
        }
    }

    /// How many levels the catalog holds.
    pub fn total_levels(&self) -> (r: usize)
        ensures
            r == self.spec_levels().len(),
    {
        self.levels.levels.len()
    }
}

} // verus!
