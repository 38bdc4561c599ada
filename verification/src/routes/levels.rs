//! The public level listing: what any caller may see of the stored levels.

use crate::db::level::{Level as StoredLevel, LevelDifficulty, LevelID};
use vstd::prelude::*;

verus! {

/// A level as the public listing shows it: everything except the password.
#[derive(Debug)]
pub struct Level {
    pub id: LevelID,
    pub name: String,
    pub difficulty: LevelDifficulty,
    pub next: Vec<LevelID>,
}

/// Response of the public level listing.
#[derive(Debug)]
pub struct GetLevelsResponse {
    pub levels: Vec<Level>,
}

/// Why the public listing failed.
#[derive(Debug)]
pub enum GetLevelsError {
    /// The level scan against the store failed.
    QueryLevels(String),
}

impl GetLevelsError {
    /// Stable machine-readable kind.
    pub fn kind(&self) -> (r: &'static str)
        ensures
            r@ == "QueryLevels"@,
    {
        match self {
            GetLevelsError::QueryLevels(_) => "QueryLevels",
        }
    }

    /// Human-readable message.
    pub fn message(&self) -> (r: &'static str)
        ensures
            r@ == "Faield to fetch levels"@,
    {
        match self {
            GetLevelsError::QueryLevels(_) => "Faield to fetch levels",
        }
    }

    /// HTTP-equivalent status: a store failure is a server error.
    pub fn status_code(&self) -> (r: u16)
        ensures
            r == 500,
    {
        match self {
            GetLevelsError::QueryLevels(_) => 500,
        }
    }
}

/// Strip each stored level down to its public view, in order: the password
/// never leaves the store record.
pub fn level_summaries(levels: Vec<StoredLevel>) -> (r: Vec<Level>)
    ensures
        r@.len() == levels@.len(),
        forall|i: int|
            0 <= i < levels@.len() ==> {
                &&& (#[trigger] r@[i]).id == levels@[i].level_id
                &&& r@[i].name == levels@[i].name
                &&& r@[i].difficulty == levels@[i].difficulty
                &&& r@[i].next == levels@[i].next
            },
{
    let ghost orig = levels@;
    let mut levels = levels;
    let mut r: Vec<Level> = Vec::new();
    while levels.len() > 0
        invariant
            orig.len() == r@.len() + levels@.len(),
            levels@ =~= orig.skip(r@.len() as int),
            forall|i: int|
                0 <= i < r@.len() ==> {
                    &&& (#[trigger] r@[i]).id == orig[i].level_id
                    &&& r@[i].name == orig[i].name
                    &&& r@[i].difficulty == orig[i].difficulty
                    &&& r@[i].next == orig[i].next
                },
        decreases levels@.len(),
    {
        let level = levels.remove(0);
        proof {
            assert(level == orig[r@.len() as int]);
            assert(levels@ =~= orig.skip(r@.len() as int + 1));
        }
        r.push(
            Level {
                id: level.level_id,
                name: level.name,
                difficulty: level.difficulty,
                next: level.next,
            },
        );
    }
    r
}

} // verus!
