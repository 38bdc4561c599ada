//! Administration of levels: the request and response shapes of the admin
//! level routes, and what a partial update does to a stored level.

use crate::db::level::{Level, LevelDifficulty, LevelID};
use crate::db::prompt::ComponentID;
use vstd::prelude::*;

verus! {

/// Response of the admin listing: the full stored records.
#[derive(Debug)]
pub struct AdminGetLevelsResponse {
    pub levels: Vec<Level>,
}

/// Request to create a level under the given name.
#[derive(Debug)]
pub struct CreateLevelRequest {
    pub name: String,
}

/// Response of creating a level: the stored record.
#[derive(Debug)]
pub struct CreateLevelResponse {
    pub level: Level,
}

/// A partial update of a level: only the fields that are present change.
#[derive(Debug)]
pub struct ModifyLevelRequest {
    pub name: Option<String>,
    pub password: Option<String>,
    pub difficulty: Option<LevelDifficulty>,
    pub prompt_components: Option<Vec<ComponentID>>,
    pub next: Option<Vec<LevelID>>,
}

/// Why a level modification failed.
#[derive(Debug)]
pub enum ModifyLevelError {
    /// No level carries the requested identifier; the conditional write
    /// found nothing to update.
    DoesNotExist,
    /// The update against the store failed.
    LevelModification(String),
}

impl ModifyLevelError {
    /// Stable machine-readable kind.
    pub fn kind(&self) -> (r: &'static str)
        ensures
            self is DoesNotExist ==> r@ == "DoesNotExist"@,
            self is LevelModification ==> r@ == "LevelModification"@,
    {
        match self {
            ModifyLevelError::DoesNotExist => "DoesNotExist",
            ModifyLevelError::LevelModification(_) => "LevelModification",
        }
    }

    /// Human-readable message.
    pub fn message(&self) -> (r: &'static str)
        ensures
            self is DoesNotExist ==> r@ == "Level does not exist"@,
            self is LevelModification ==> r@ == "Failed to modify level"@,
    {
        match self {
            ModifyLevelError::DoesNotExist => "Level does not exist",
            ModifyLevelError::LevelModification(_) => "Failed to modify level",
        }
    }

    /// HTTP-equivalent status: a missing level is not found, a store
    /// failure a server error.
    pub fn status_code(&self) -> (r: u16)
        ensures
            self is DoesNotExist ==> r == 404,
            self is LevelModification ==> r == 500,
    {
        match self {
            ModifyLevelError::DoesNotExist => 404,
            ModifyLevelError::LevelModification(_) => 500,
        }
    }
}

/// What the store's update expression does to the level record: each field
/// named in the request is overwritten, every other field — the identifier
/// above all — is untouched.
pub fn apply_level_update(level: &mut Level, request: ModifyLevelRequest)
    ensures
        final(level).level_id == old(level).level_id,
        final(level).name == (match request.name {
            Some(name) => name,
            None => old(level).name,
        }),
        final(level).password == (match request.password {
            Some(password) => password,
            None => old(level).password,
        }),
        final(level).difficulty == (match request.difficulty {
            Some(difficulty) => difficulty,
            None => old(level).difficulty,
        }),
        final(level).prompt_components == (match request.prompt_components {
            Some(prompt_components) => prompt_components,
            None => old(level).prompt_components,
        }),
        final(level).next == (match request.next {
            Some(next) => next,
            None => old(level).next,
        }),
{
    if let Some(name) = request.name {
        level.name = name;
    }
    if let Some(password) = request.password {
        level.password = password;
    }
    if let Some(difficulty) = request.difficulty {
        level.difficulty = difficulty;
    }
    if let Some(prompt_components) = request.prompt_components {
        level.prompt_components = prompt_components;
    }
    if let Some(next) = request.next {
        level.next = next;
    }
}

} // verus!
