//! Administration of the prompt-component sequence: the request and
//! response shapes of the component routes.
//!
//! The operations themselves — insert, move, remove, edit — live on
//! [`crate::service::SequenceStore`]; this module holds what crosses the
//! wire around them.

use crate::db::prompt::{ComponentID, PromptComponent};
use vstd::prelude::*;

verus! {

/// A component as the listing shows it: its identifier and text, in
/// sequence order; the position key stays internal.
#[derive(Debug)]
pub struct Component {
    pub id: ComponentID,
    pub text: String,
}

/// Response of the component listing: components in ascending position
/// order.
#[derive(Debug)]
pub struct GetComponentsResponse {
    pub components: Vec<Component>,
}

/// Response of creating a component: the freshly minted identifier.
#[derive(Debug)]
pub struct AddComponentResponse {
    pub component_id: ComponentID,
}

/// Request to replace a component's text.
#[derive(Debug)]
pub struct ModifyComponentRequest {
    pub new_text: String,
}

/// Request to move a component directly after a predecessor, or to the
/// front when none is given.
#[derive(Debug)]
pub struct MoveComponentRequest {
    pub predecessor: Option<ComponentID>,
}

/// Strip each stored component down to its listing view, in order.
pub fn component_views(components: Vec<PromptComponent>) -> (r: Vec<Component>)
    ensures
        r@.len() == components@.len(),
        forall|i: int|
            0 <= i < components@.len() ==> {
                &&& (#[trigger] r@[i]).id == components@[i].component_id
                &&& r@[i].text == components@[i].text
            },
{
    let ghost orig = components@;
    let mut components = components;
    let mut r: Vec<Component> = Vec::new();
    while components.len() > 0
        invariant
            orig.len() == r@.len() + components@.len(),
            components@ =~= orig.skip(r@.len() as int),
            forall|i: int|
                0 <= i < r@.len() ==> {
                    &&& (#[trigger] r@[i]).id == orig[i].component_id
                    &&& r@[i].text == orig[i].text
                },
        decreases components@.len(),
    {
        let c = components.remove(0);
        proof {
            assert(c == orig[r@.len() as int]);
            assert(components@ =~= orig.skip(r@.len() as int + 1));
        }
        r.push(Component { id: c.component_id, text: c.text });
    }
    r
}

} // verus!
