//! The gateway authorizer's decision: what policy response a request
//! receives once its token has (or has not) been validated.
//!
//! Token parsing and signature checking belong to outside collaborators;
//! what is decided here is the response built from their verdict.

use vstd::prelude::*;
use vstd::string::StringExecFns;

verus! {

/// Whether a policy statement grants or denies.
#[derive(Clone, Copy, Debug, PartialEq, Eq, Structural)]
pub enum PolicyEffect {
    Allow,
    Deny,
}

/// One statement of the gateway policy document.
#[derive(Debug)]
pub struct PolicyStatement {
    pub effect: PolicyEffect,
    pub resource: Vec<String>,
    pub action: Vec<String>,
}

/// The context the authorizer forwards to the handlers: the verified
/// subject on success, the failure message otherwise.
#[derive(Debug)]
pub enum AuthorizerContext {
    Sub(String),
    Message(String),
}

/// The authorizer's answer: who the caller is, and one policy statement
/// saying what they may invoke.
#[derive(Debug)]
pub struct AuthorizerResponse {
    pub principal_id: Option<String>,
    pub policy_version: String,
    pub statements: Vec<PolicyStatement>,
    pub context: AuthorizerContext,
}

/// Build the authorizer's response: one allow statement for the invoke
/// action, covering the given resource when there is one and nothing
/// otherwise.
pub fn create_response(
    principal_id: Option<String>,
    allowed_resource: Option<String>,
    context: AuthorizerContext,
) -> (r: AuthorizerResponse)
    ensures
        r.principal_id == principal_id,
        r.policy_version@ == "2012-10-17"@,
        r.statements@.len() == 1,
        r.statements@[0].effect == PolicyEffect::Allow,
        r.statements@[0].action@.len() == 1,
        r.statements@[0].action@[0]@ == "execute-api:Invoke"@,
        match allowed_resource {
            Some(resource) => r.statements@[0].resource@.len() == 1 && r.statements@[0].resource@[0]
                == resource,
            None => r.statements@[0].resource@.len() == 0,
        },
        r.context == context,
{
    let mut resource: Vec<String> = Vec::new();
    match allowed_resource {
        Some(res) => {
            resource.push(res);
        },
        None => {},
    }
    let mut action: Vec<String> = Vec::new();
    action.push(String::from_str("execute-api:Invoke"));
    let mut statements: Vec<PolicyStatement> = Vec::new();
    statements.push(PolicyStatement { effect: PolicyEffect::Allow, resource, action });
    AuthorizerResponse {
        principal_id,
        policy_version: String::from_str("2012-10-17"),
        statements,
        context,
    }
}

/// The response for a request whose token could not be validated: no
/// principal, no resource, and the cause forwarded as the context message.
pub fn unauthorized_response(cause: String) -> (r: AuthorizerResponse)
    ensures
        r.principal_id is None,
        r.policy_version@ == "2012-10-17"@,
        r.statements@.len() == 1,
        r.statements@[0].effect == PolicyEffect::Allow,
        r.statements@[0].resource@.len() == 0,
        r.context == AuthorizerContext::Message(cause),
{
    create_response(None, None, AuthorizerContext::Message(cause))
}

} // verus!
