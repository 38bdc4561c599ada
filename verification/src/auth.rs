//! Authorization facts consumed by the mutation service.
//!
//! Identity itself is resolved by outside collaborators (the request
//! authorizer supplies a username, the identity provider answers group
//! lookups); this module holds the decisions made on what they return: is
//! the caller a moderator at all, and do they hold the level-manager
//! capability.

use vstd::prelude::*;

verus! {

/// A caller whose identity the request authorizer vouched for.
#[derive(Debug)]
pub struct AuthorizedModerator {
    username: String,
}

impl AuthorizedModerator {
    /// The verified principal identifier.
    pub closed spec fn spec_username(&self) -> Seq<char> {
        self.username@
    }

    pub fn username(&self) -> (r: &str)
        ensures
            r@ == self.spec_username(),
    {
        self.username.as_str()
    }
}

/// Witness that the caller is in the level-manager group.
#[derive(Debug)]
pub struct AssertLevelManager;

/// Why a caller was turned away before any operation ran.
#[derive(Debug)]
pub enum AuthorizationError {
    /// The request carried no verified principal.
    NotAuthorized,
    /// The principal is not a level manager.
    NotALevelManager,
    /// The group lookup against the identity provider failed.
    RetrieveGroups(String),
}

impl AuthorizationError {
    /// Stable machine-readable kind.
    pub fn kind(&self) -> (r: &'static str)
        ensures
            self is NotAuthorized ==> r@ == "NotAuthorized"@,
            self is NotALevelManager ==> r@ == "NotALevelManager"@,
            self is RetrieveGroups ==> r@ == "RetrieveGroups"@,
    {
        match self {
            AuthorizationError::NotAuthorized => "NotAuthorized",
            AuthorizationError::NotALevelManager => "NotALevelManager",
            AuthorizationError::RetrieveGroups(_) => "RetrieveGroups",
        }
    }

    /// Human-readable message.
    pub fn message(&self) -> (r: &'static str)
        ensures
            self is NotAuthorized ==> r@ == "The request was not authorized"@,
            self is NotALevelManager ==> r@ == "User is not a level manager"@,
            self is RetrieveGroups ==> r@ == "Unable to retreive user groups"@,
    {
        match self {
            AuthorizationError::NotAuthorized => "The request was not authorized",
            AuthorizationError::NotALevelManager => "User is not a level manager",
            AuthorizationError::RetrieveGroups(_) => "Unable to retreive user groups",
        }
    }

    /// HTTP-equivalent status: a missing principal is unauthorized, a
    /// missing capability forbidden, a failed lookup a server error.
    pub fn status_code(&self) -> (r: u16)
        ensures
            self is NotAuthorized ==> r == 401,
            self is NotALevelManager ==> r == 403,
            self is RetrieveGroups ==> r == 500,
    {
        match self {
            AuthorizationError::NotAuthorized => 401,
            AuthorizationError::NotALevelManager => 403,
            AuthorizationError::RetrieveGroups(_) => 500,
        }
    }
}

/// The decision behind the moderator extractor: the transport hands over the
/// authorizer context's username field, and a request without one is turned
/// away as unauthorized.
pub fn authorize_moderator(username_field: Option<String>) -> (r: Result<
    AuthorizedModerator,
    AuthorizationError,
>)
    ensures
        match r {
            Ok(m) => username_field matches Some(u) && m.spec_username() == u@,
            Err(e) => username_field is None && e is NotAuthorized,
        },
{
    match username_field {
        Some(username) => Ok(AuthorizedModerator { username }),
        None => Err(AuthorizationError::NotAuthorized),
    }
}

/// The decision behind the level-manager extractor: the identity provider
/// answered whether the principal is in the level-manager group, and only a
/// member receives the capability witness.
pub fn assert_level_manager(is_in_group: bool) -> (r: Result<
    AssertLevelManager,
    AuthorizationError,
>)
    ensures
        (r is Ok) <==> is_in_group,
        r matches Err(e) ==> e is NotALevelManager,
{
    if is_in_group {
        Ok(AssertLevelManager)
    } else {
        Err(AuthorizationError::NotALevelManager)
    }
}

/// Whether any of the caller's groups is the one the capability requires:
/// the decision made on the identity provider's group listing.
pub fn group_names_contain(group_names: &Vec<String>, wanted: &String) -> (r: bool)
    ensures
        r == (exists|i: int|
            0 <= i < group_names@.len() && (#[trigger] group_names@[i])@ == wanted@),
{
    let n = group_names.len();
    let mut i: usize = 0;
    while i < n
        invariant
            i <= n,
            n == group_names@.len(),
            forall|j: int| 0 <= j < i ==> (#[trigger] group_names@[j])@ != wanted@,
        decreases n - i,
    {
        if group_names[i] == *wanted {
            return true;
        }
        i = i + 1;
    }
    false
}

} // verus!
