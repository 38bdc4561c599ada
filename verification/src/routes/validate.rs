//! Password validation for a level: the guess and the stored password are
//! compared with surrounding whitespace ignored.

use crate::db::level::Level;
use crate::text::{trim_str, trimmed_of};
use vstd::prelude::*;

verus! {

/// A password guess for one level.
#[derive(Debug)]
pub struct ValidatePasswordRequest {
    pub password: String,
}

/// Whether the guess was right.
#[derive(Debug)]
pub struct ValidatePasswordResponse {
    pub is_correct: bool,
}

/// Why a validation request failed.
#[derive(Debug)]
pub enum ValidatePasswordError {
    /// No level carries the requested identifier.
    DoesNotExist,
    /// Fetching the level from the store failed.
    QueryLevel(String),
}

impl ValidatePasswordError {
    /// Stable machine-readable kind.
    pub fn kind(&self) -> (r: &'static str)
        ensures
            self is DoesNotExist ==> r@ == "DoesNotExist"@,
            self is QueryLevel ==> r@ == "QueryLevel"@,
    {
        match self {
            ValidatePasswordError::DoesNotExist => "DoesNotExist",
            ValidatePasswordError::QueryLevel(_) => "QueryLevel",
        }
    }

    /// Human-readable message.
    pub fn message(&self) -> (r: &'static str)
        ensures
            self is DoesNotExist ==> r@ == "Level does not exist"@,
            self is QueryLevel ==> r@ == "Unable to fetch level data"@,
    {
        match self {
            ValidatePasswordError::DoesNotExist => "Level does not exist",
            ValidatePasswordError::QueryLevel(_) => "Unable to fetch level data",
        }
    }

    /// HTTP-equivalent status: a missing level is not found, a store
    /// failure a server error.
    pub fn status_code(&self) -> (r: u16)
        ensures
            self is DoesNotExist ==> r == 404,
            self is QueryLevel ==> r == 500,
    {
        match self {
            ValidatePasswordError::DoesNotExist => 404,
            ValidatePasswordError::QueryLevel(_) => 500,
        }
    }
}

/// Whether the guess matches the stored password once both are stripped of
/// surrounding whitespace.
pub fn password_matches(stored: &String, guess: &String) -> (r: bool)
    ensures
        r == (trimmed_of(stored@) == trimmed_of(guess@)),
{
    let a = trim_str(stored.as_str());
    let b = trim_str(guess.as_str());
    let a_owned = a.to_owned();
    let b_owned = b.to_owned();
    a_owned == b_owned
}

/// Judge a password guess against the fetched level.
pub fn validate_password(level: &Level, request: &ValidatePasswordRequest) -> (r:
    ValidatePasswordResponse)
    ensures
        r.is_correct == (trimmed_of(level.password@) == trimmed_of(request.password@)),
{
    ValidatePasswordResponse { is_correct: password_matches(&level.password, &request.password) }
}

} // verus!
