//! Game levels: the records the chat sessions are played against.

use crate::db::prompt::ComponentID;
use vstd::prelude::*;

verus! {

/// Stable identifier of one level, minted by the counter.
#[derive(Clone, Copy, Debug, PartialEq, Eq, Structural)]
pub struct LevelID(pub u64);

/// How hard a level is meant to be.
#[derive(Clone, Copy, Debug, PartialEq, Eq, Structural)]
pub enum LevelDifficulty {
    Low,
    Medium,
    High,
}

/// One stored level.
#[derive(Debug)]
pub struct Level {
    pub level_id: LevelID,
    pub name: String,
    pub password: String,
    pub difficulty: LevelDifficulty,
    pub prompt_components: Vec<ComponentID>,
    pub next: Vec<LevelID>,
}

impl Level {
    /// Build a brand-new level: given its freshly minted identifier, name
    /// and generated password, at the lowest difficulty, with no prompt
    /// components and no follow-up levels yet.
    pub fn new(level_id: LevelID, name: String, password: String) -> (r: Self)
        ensures
            r.level_id == level_id,
            r.name == name,
            r.password == password,
            r.difficulty == LevelDifficulty::Low,
            r.prompt_components@ =~= Seq::<ComponentID>::empty(),
            r.next@ =~= Seq::<LevelID>::empty(),
    {
        Level {
            level_id,
            name,
            password,
            difficulty: LevelDifficulty::Low,
            prompt_components: Vec::new(),
            next: Vec::new(),
        }
    }
}

} // verus!
