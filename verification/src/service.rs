//! The sequence mutation service: insert, reposition, remove, edit and list
//! the ordered members of one prompt template.
//!
//! `SequenceStore` models the slice of the backing table that holds one
//! template's components, kept in ascending position-key order exactly as
//! the index range read returns them. Every operation first consumes the
//! caller's authorization fact, re-reads the current order, plans a key with
//! the codec, and applies the change the way the store's conditional write
//! would: a mutation of a member that is gone fails with a not-found error
//! and changes nothing.

use crate::db::prompt::{
    components_sorted, components_wf, contains_id, find_component, keys_below,
    lemma_keys_below_weaken, valid_key, ComponentID, PromptComponent, TemplateID,
    MAX_SORT_KEY_LEN,
};
use crate::lex::{lemma_lex_lt_transitive, lex_lt};
use vstd::prelude::*;

verus! {

/// Why a mutation was refused. Not-found conditions are client errors; the
/// caller that lacks the capability is turned away before the store is
/// touched at all.
#[derive(Clone, Copy, Debug, PartialEq, Eq, Structural)]
pub enum ServiceError {
    /// The caller does not hold the capability the operation needs.
    NotAuthorized,
    /// The member being mutated did not exist at the authoritative check.
    MemberNotFound,
    /// The requested predecessor is not in the sequence (a member can also
    /// never be its own predecessor).
    PredecessorNotFound,
}

impl ServiceError {
    /// Stable machine-readable kind.
    pub fn kind(&self) -> (r: &'static str)
        ensures
            self is NotAuthorized ==> r@ == "NotAuthorized"@,
            self is MemberNotFound ==> r@ == "MemberNotFound"@,
            self is PredecessorNotFound ==> r@ == "PredecessorNotFound"@,
    {
        match self {
            ServiceError::NotAuthorized => "NotAuthorized",
            ServiceError::MemberNotFound => "MemberNotFound",
            ServiceError::PredecessorNotFound => "PredecessorNotFound",
        }
    }

    /// Human-readable message.
    pub fn message(&self) -> (r: &'static str)
        ensures
            self is NotAuthorized ==> r@ == "The request was not authorized"@,
            self is MemberNotFound ==> r@ == "Component does not exist"@,
            self is PredecessorNotFound ==> r@ == "Predecessor does not exist"@,
    {
        match self {
            ServiceError::NotAuthorized => "The request was not authorized",
            ServiceError::MemberNotFound => "Component does not exist",
            ServiceError::PredecessorNotFound => "Predecessor does not exist",
        }
    }

    /// HTTP-equivalent status: the missing capability is forbidden, the
    /// not-found conditions map to not found.
    pub fn status_code(&self) -> (r: u16)
        ensures
            self is NotAuthorized ==> r == 403,
            self is MemberNotFound ==> r == 404,
            self is PredecessorNotFound ==> r == 404,
    {
        match self {
            ServiceError::NotAuthorized => 403,
            ServiceError::MemberNotFound => 404,
            ServiceError::PredecessorNotFound => 404,
        }
    }
}

/// The members of one template, in ascending position-key order — the
/// authoritative sequence a range read of the backing index returns.
pub struct SequenceStore {
    pub components: Vec<PromptComponent>,
}

impl SequenceStore {
    /// Invariant every operation preserves: members strictly ascending by
    /// position key (so iteration order is stable and no two keys collide),
    /// identifiers unique, and every key one the codec could have produced.
    pub open spec fn wf(&self) -> bool {
        components_wf(self.components@)
    }

    /// An empty sequence.
    pub fn new() -> (r: Self)
        ensures
            r.wf(),
            r.components@ == Seq::<PromptComponent>::empty(),
    {
        SequenceStore { components: Vec::new() }
    }

    /// Adopt a snapshot read from the backing index. The index returns the
    /// members already in ascending key order with unique identifiers;
    /// callers check that before handing the snapshot over.
    pub fn from_components(components: Vec<PromptComponent>) -> (r: Self)
        requires
            components_wf(components@),
        ensures
            r.wf(),
            r.components@ == components@,
    {
        SequenceStore { components }
    }

    /// All members, in ascending position-key order.
    pub fn list(&self) -> (r: &Vec<PromptComponent>)
        ensures
            r@ == self.components@,
            self.wf() ==> components_sorted(r@),
    {
        &self.components
    }

    /// The member with the given identifier, if it exists.
    pub fn get(&self, component_id: ComponentID) -> (r: Option<&PromptComponent>)
        ensures
            match r {
                Some(c) => contains_id(self.components@, component_id) && exists|i: int|
                    0 <= i < self.components@.len() && *c == self.components@[i]
                        && c.component_id == component_id,
                None => !contains_id(self.components@, component_id),
            },
    {
        match find_component(&self.components, component_id) {
            Some(i) => {
                let c = &self.components[i];
                proof {
                    assert(*c == self.components@[i as int] && c.component_id == component_id);
                }
                Some(c)
            },
            None => None,
        }
    }

    /// Remove the member, leaving every other member untouched: successor
    /// keys are never rewritten, so the relative order of the rest cannot
    /// change. The backing delete does not report whether the key existed,
    /// so removing an absent member succeeds and changes nothing.
    pub fn remove(&mut self, authorized: bool, component_id: ComponentID) -> (r: Result<
        (),
        ServiceError,
    >)
        requires
            old(self).wf(),
        ensures
            final(self).wf(),
            (r is Ok) <==> authorized,
            (r == Err::<(), ServiceError>(ServiceError::NotAuthorized)) <==> !authorized,
            !authorized ==> final(self).components@ == old(self).components@,
            authorized && !contains_id(old(self).components@, component_id) ==> final(self)
                .components@ == old(self).components@,
            authorized && contains_id(old(self).components@, component_id) ==> exists|i: int|
                0 <= i < old(self).components@.len() && old(self).components@[i].component_id
                    == component_id && final(self).components@ == old(self).components@.remove(i),
            forall|n: nat|
                #[trigger] keys_below(old(self).components@, n) ==> keys_below(
                    final(self).components@,
                    n,
                ),
    {
        if !authorized {
            return Err(ServiceError::NotAuthorized);
        }
        match find_component(&self.components, component_id) {
            None => Ok(()),
            Some(i) => {
                self.components.remove(i);
                proof {
                    let s = old(self).components@;
                    lemma_remove_wf(s, i as int);
                    assert forall|nn: nat| #[trigger] keys_below(s, nn) implies keys_below(
                        final(self).components@,
                        nn,
                    ) by {
                        lemma_keys_below_remove(s, i as int, nn);
                    }
                }
                Ok(())
            },
        }
    }

    /// Replace the member's text, leaving its identifier, template and
    /// position untouched. Fails with the member's not-found error exactly
    /// when no member carries the identifier, as the conditional write does.
    pub fn set_text(&mut self, authorized: bool, component_id: ComponentID, new_text: String)
        -> (r: Result<(), ServiceError>)
        requires
            old(self).wf(),
        ensures
            final(self).wf(),
            r matches Err(_) ==> final(self).components@ == old(self).components@,
            (r is Ok) <==> (authorized && contains_id(old(self).components@, component_id)),
            (r == Err::<(), ServiceError>(ServiceError::NotAuthorized)) <==> !authorized,
            (r == Err::<(), ServiceError>(ServiceError::MemberNotFound)) <==> (authorized
                && !contains_id(old(self).components@, component_id)),
            r is Ok ==> exists|i: int, m: PromptComponent|
                {
                    &&& 0 <= i < old(self).components@.len()
                    &&& old(self).components@[i].component_id == component_id
                    &&& m.component_id == component_id
                    &&& m.template_id == old(self).components@[i].template_id
                    &&& m.ordering == old(self).components@[i].ordering
                    &&& m.text == new_text
                    &&& final(self).components@ == old(self).components@.update(i, m)
                },
            forall|n: nat|
                #[trigger] keys_below(old(self).components@, n) ==> keys_below(
                    final(self).components@,
                    n,
                ),
    {
        if !authorized {
            return Err(ServiceError::NotAuthorized);
        }
        match find_component(&self.components, component_id) {
            None => Err(ServiceError::MemberNotFound),
            Some(i) => {
                self.components[i].text = new_text;
                proof {
                    let s = old(self).components@;
                    let t = final(self).components@;
                    assert forall|a: int, b: int| 0 <= a < b < t.len() implies lex_lt(
                        #[trigger] t[a].ordering@,
                        #[trigger] t[b].ordering@,
                    ) by {
                        assert(t[a].ordering == s[a].ordering);
                        assert(t[b].ordering == s[b].ordering);
                    }
                    assert forall|a: int, b: int| 0 <= a < b < t.len() implies (
                    #[trigger] t[a].component_id) != (#[trigger] t[b].component_id) by {
                        assert(t[a].component_id == s[a].component_id);
                        assert(t[b].component_id == s[b].component_id);
                    }
                    assert forall|a: int| 0 <= a < t.len() implies valid_key(
                        #[trigger] t[a].ordering@,
                    ) by {
                        assert(t[a].ordering == s[a].ordering);
                    }
                    assert forall|nn: nat| #[trigger] keys_below(s, nn) implies keys_below(
                        t,
                        nn,
                    ) by {
                        assert forall|a: int|
                            0 <= a < t.len() implies (#[trigger] t[a].ordering@).len() < nn by {
                            assert(t[a].ordering == s[a].ordering);
                            assert(s[a].ordering@.len() < nn);
                        }
                    }
                }
                Ok(())
            },
        }
    }
}

/// The identifiers of a snapshot, in sequence order.
pub open spec fn component_ids(s: Seq<PromptComponent>) -> Seq<ComponentID> {
    Seq::new(s.len(), |i: int| s[i].component_id)
}

/// No identifier repeats in the sequence.
pub open spec fn ids_unique_seq(ids: Seq<ComponentID>) -> bool {
    forall|i: int, j: int| 0 <= i < j < ids.len() ==> ids[i] != ids[j]
}

/// Whether the identifier occurs in the sequence.
pub open spec fn contains_cid(ids: Seq<ComponentID>, id: ComponentID) -> bool {
    exists|i: int| 0 <= i < ids.len() && ids[i] == id
}

/// The index of the identifier; meaningful when it occurs exactly once.
pub open spec fn index_of_id(ids: Seq<ComponentID>, id: ComponentID) -> int {
    choose|i: int| 0 <= i < ids.len() && ids[i] == id
}

/// What repositioning does to the order of identifiers: the member moves
/// directly after the requested predecessor (or to the front), and every
/// other member keeps its relative place.
pub open spec fn reposition_ids(
    ids: Seq<ComponentID>,
    id: ComponentID,
    predecessor: Option<ComponentID>,
) -> Seq<ComponentID> {
    let rest = ids.remove(index_of_id(ids, id));
    match predecessor {
        None => rest.insert(0, id),
        Some(pid) => rest.insert(index_of_id(rest, pid) + 1, id),
    }
}

/// A requested predecessor that the snapshot cannot resolve for an insert:
/// one was named and no member carries its identifier.
pub open spec fn insert_pred_missing(s: Seq<PromptComponent>, predecessor: Option<ComponentID>)
    -> bool {
    match predecessor {
        Some(pid) => !contains_id(s, pid),
        None => false,
    }
}

/// A requested predecessor that a move cannot resolve: one was named and it
/// is either the moving member itself — a member cannot be its own
/// predecessor — or not in the sequence at all.
pub open spec fn move_pred_missing(
    s: Seq<PromptComponent>,
    component_id: ComponentID,
    predecessor: Option<ComponentID>,
) -> bool {
    match predecessor {
        Some(pid) => pid == component_id || !contains_id(s, pid),
        None => false,
    }
}

/// The new snapshot is the old one with one new member carrying the given
/// identifier and text, placed directly after the requested predecessor (or
/// first when none was requested).
pub open spec fn inserted_after(
    old_s: Seq<PromptComponent>,
    new_s: Seq<PromptComponent>,
    component_id: ComponentID,
    text: String,
    predecessor: Option<ComponentID>,
) -> bool {
    exists|i: int, m: PromptComponent|
        {
            &&& 0 <= i <= old_s.len()
            &&& m.component_id == component_id
            &&& m.text == text
            &&& m.template_id.0@ == "default-tempalte"@
            &&& valid_key(m.ordering@)
            &&& new_s == #[trigger] old_s.insert(i, m)
            &&& match predecessor {
                None => i == 0,
                Some(pid) => i > 0 && old_s[i - 1].component_id == pid,
            }
        }
}

/// The new snapshot is the old one with the member moved directly after the
/// requested predecessor (or to the front); its identifier, text and
/// template are untouched, only its position key is new.
pub open spec fn repositioned(
    old_s: Seq<PromptComponent>,
    new_s: Seq<PromptComponent>,
    component_id: ComponentID,
    predecessor: Option<ComponentID>,
) -> bool {
    exists|iold: int, inew: int, m: PromptComponent|
        {
            &&& 0 <= iold < old_s.len()
            &&& old_s[iold].component_id == component_id
            &&& m.component_id == component_id
            &&& m.text == old_s[iold].text
            &&& m.template_id == old_s[iold].template_id
            &&& valid_key(m.ordering@)
            &&& 0 <= inew <= old_s.len() - 1
            &&& new_s == #[trigger] old_s.remove(iold).insert(inew, m)
            &&& match predecessor {
                None => inew == 0,
                Some(pid) => inew > 0 && old_s.remove(iold)[inew - 1].component_id == pid,
            }
        }
}

/// Dropping one member keeps the rest sorted, unique and valid: every
/// surviving pair was a pair before.
proof fn lemma_remove_wf(s: Seq<PromptComponent>, i: int)
    requires
        components_wf(s),
        0 <= i < s.len(),
    ensures
        components_wf(s.remove(i)),
{
    let t = s.remove(i);
    assert forall|a: int, b: int| 0 <= a < b < t.len() implies lex_lt(
        #[trigger] t[a].ordering@,
        #[trigger] t[b].ordering@,
    ) by {
        let sa: int = if a < i { a } else { a + 1 };
        let sb: int = if b < i { b } else { b + 1 };
        assert(t[a] == s[sa]);
        assert(t[b] == s[sb]);
    }
    assert forall|a: int, b: int| 0 <= a < b < t.len() implies (#[trigger] t[a].component_id) != (
    #[trigger] t[b].component_id) by {
        let sa: int = if a < i { a } else { a + 1 };
        let sb: int = if b < i { b } else { b + 1 };
        assert(t[a] == s[sa]);
        assert(t[b] == s[sb]);
    }
    assert forall|a: int| 0 <= a < t.len() implies valid_key(#[trigger] t[a].ordering@) by {
        let sa: int = if a < i { a } else { a + 1 };
        assert(t[a] == s[sa]);
    }
}

/// Dropping one member cannot lengthen any key.
proof fn lemma_keys_below_remove(s: Seq<PromptComponent>, i: int, n: nat)
    requires
        0 <= i < s.len(),
        keys_below(s, n),
    ensures
        keys_below(s.remove(i), n),
{
    let t = s.remove(i);
    assert forall|a: int| 0 <= a < t.len() implies (#[trigger] t[a].ordering@).len() < n by {
        let sa: int = if a < i { a } else { a + 1 };
        assert(t[a] == s[sa]);
        assert(s[sa].ordering@.len() < n);
    }
}

/// Planting one key that stays under a cap raised by one keeps the whole
/// snapshot under that raised cap.
proof fn lemma_keys_below_insert(u: Seq<PromptComponent>, i: int, m: PromptComponent, n: nat)
    requires
        0 <= i <= u.len(),
        keys_below(u, n),
        m.ordering@.len() < n + 1,
    ensures
        keys_below(u.insert(i, m), (n + 1) as nat),
{
    let t = u.insert(i, m);
    assert forall|a: int| 0 <= a < t.len() implies (#[trigger] t[a].ordering@).len() < n + 1 by {
        if a < i {
            assert(t[a] == u[a]);
            assert(u[a].ordering@.len() < n);
        } else if a == i {
            assert(t[a] == m);
        } else {
            assert(t[a] == u[a - 1]);
            assert(u[a - 1].ordering@.len() < n);
        }
    }
}

/// A member strictly between its new neighbours slots in without disturbing
/// sortedness, uniqueness or key validity.
proof fn lemma_insert_wf(s: Seq<PromptComponent>, i: int, m: PromptComponent)
    requires
        components_wf(s),
        0 <= i <= s.len(),
        i > 0 ==> lex_lt(s[i - 1].ordering@, m.ordering@),
        i < s.len() ==> lex_lt(m.ordering@, s[i].ordering@),
        valid_key(m.ordering@),
        !contains_id(s, m.component_id),
    ensures
        components_wf(s.insert(i, m)),
{
    let t = s.insert(i, m);
    assert forall|a: int, b: int| 0 <= a < b < t.len() implies lex_lt(
        #[trigger] t[a].ordering@,
        #[trigger] t[b].ordering@,
    ) by {
        if a < i {
            assert(t[a] == s[a]);
        } else if a == i {
            assert(t[a] == m);
        } else {
            assert(t[a] == s[a - 1]);
        }
        if b < i {
            assert(t[b] == s[b]);
        } else if b == i {
            assert(t[b] == m);
        } else {
            assert(t[b] == s[b - 1]);
        }
        if b == i && a < i - 1 {
            lemma_lex_lt_transitive(s[a].ordering@, s[i - 1].ordering@, m.ordering@);
        }
        if a == i && b > i + 1 {
            lemma_lex_lt_transitive(m.ordering@, s[i].ordering@, s[b - 1].ordering@);
        }
    }
    assert forall|a: int, b: int| 0 <= a < b < t.len() implies (#[trigger] t[a].component_id) != (
    #[trigger] t[b].component_id) by {
        if a != i && b != i {
            let sa: int = if a < i { a } else { a - 1 };
            let sb: int = if b < i { b } else { b - 1 };
            assert(t[a] == s[sa]);
            assert(t[b] == s[sb]);
        } else if a == i {
            let sb: int = b - 1;
            assert(t[b] == s[sb]);
            assert(t[a] == m);
        } else {
            let sa: int = a;
            assert(t[a] == s[sa]);
            assert(t[b] == m);
        }
    }
    assert forall|a: int| 0 <= a < t.len() implies valid_key(#[trigger] t[a].ordering@) by {
        if a != i {
            let sa: int = if a < i { a } else { a - 1 };
            assert(t[a] == s[sa]);
        } else {
            assert(t[a] == m);
        }
    }
}

impl SequenceStore {
    /// Insert a brand-new member with a freshly minted identifier directly
    /// after the requested predecessor, or at the front when none is given.
    /// The position key is planned against the current order and is strictly
    /// between the predecessor's key and its successor's. A fresh identifier
    /// cannot conflict, so the write itself is unconditional; the only
    /// client error is a predecessor that is not in the sequence.
    ///
    /// The plan is only as current as the order it was read against: two
    /// concurrent inserts at the same spot each compute a key valid for the
    /// snapshot they saw, and nothing re-checks the neighbour pair at write
    /// time, so their relative order is undefined. That race is accepted by
    /// design rather than closed with a lock the store does not offer.
    pub fn insert(
        &mut self,
        authorized: bool,
        component_id: ComponentID,
        text: String,
        predecessor: Option<ComponentID>,
    ) -> (r: Result<(), ServiceError>)
        requires
            old(self).wf(),
            keys_below(old(self).components@, MAX_SORT_KEY_LEN as nat),
            !contains_id(old(self).components@, component_id),
        ensures
            final(self).wf(),
            r matches Err(_) ==> final(self).components@ == old(self).components@,
            (r == Err::<(), ServiceError>(ServiceError::NotAuthorized)) <==> !authorized,
            (r == Err::<(), ServiceError>(ServiceError::PredecessorNotFound)) <==> (authorized
                && insert_pred_missing(old(self).components@, predecessor)),
            (r is Ok) <==> (authorized && !insert_pred_missing(old(self).components@, predecessor)),
            r is Ok ==> inserted_after(
                old(self).components@,
                final(self).components@,
                component_id,
                text,
                predecessor,
            ),
            r is Ok ==> final(self).components@.len() == old(self).components@.len() + 1,
            r is Ok ==> forall|n: nat|
                1 <= n && #[trigger] keys_below(old(self).components@, n) ==> keys_below(
                    final(self).components@,
                    (n + 1) as nat,
                ),
    {
        if !authorized {
            return Err(ServiceError::NotAuthorized);
        }
        let key_opt = PromptComponent::create_sort_key(&self.components, predecessor);
        let n = self.components.len();
        let idx: usize = match predecessor {
            None => 0,
            Some(pid) => {
                match find_component(&self.components, pid) {
                    None => {
                        return Err(ServiceError::PredecessorNotFound);
                    },
                    Some(i) => i + 1,
                }
            },
        };
        proof {
            if let Some(pid) = predecessor {
                assert(self.components@[idx - 1].component_id == pid);
                assert(contains_id(self.components@, pid));
            }
        }
        let key = key_opt.unwrap();
        let member = PromptComponent {
            component_id,
            template_id: TemplateID::default(),
            ordering: key,
            text,
        };
        proof {
            let s = self.components@;
            if let Some(pid) = predecessor {
                let ip = choose|ip: int|
                    0 <= ip < s.len() && (#[trigger] s[ip].component_id) == pid
                        && crate::db::prompt::between_post(
                        s[ip].ordering@,
                        crate::db::prompt::successor_key(s, ip),
                        member.ordering@,
                    ) && member.ordering@.len() <= crate::db::prompt::between_len_bound(
                        s[ip].ordering@,
                        crate::db::prompt::successor_key(s, ip),
                    );
                if ip != idx - 1 {
                    assert(s[ip].component_id == s[idx - 1].component_id);
                    assert(false);
                }
            }
        }
        self.components.insert(idx, member);
        proof {
            let s = old(self).components@;
            lemma_insert_wf(s, idx as int, member);
            assert(inserted_after(
                s,
                final(self).components@,
                component_id,
                member.text,
                predecessor,
            )) by {
                assert(final(self).components@ == s.insert(idx as int, member));
            }
            assert forall|nn: nat| 1 <= nn && #[trigger] keys_below(s, nn) implies keys_below(
                final(self).components@,
                (nn + 1) as nat,
            ) by {
                if let Some(pid) = predecessor {
                    let ip = choose|ip: int|
                        0 <= ip < s.len() && (#[trigger] s[ip].component_id) == pid
                            && crate::db::prompt::between_post(
                            s[ip].ordering@,
                            crate::db::prompt::successor_key(s, ip),
                            member.ordering@,
                        ) && member.ordering@.len() <= crate::db::prompt::between_len_bound(
                            s[ip].ordering@,
                            crate::db::prompt::successor_key(s, ip),
                        );
                    if ip != idx - 1 {
                        assert(s[ip].component_id == s[idx - 1].component_id);
                        assert(false);
                    }
                    assert(s[ip].ordering@.len() < nn);
                    if ip + 1 < s.len() {
                        assert(s[ip + 1].ordering@.len() < nn);
                    }
                } else {
                    if s.len() > 0 {
                        assert(s[0].ordering@.len() < nn);
                    }
                }
                assert(member.ordering@.len() < nn + 1);
                lemma_keys_below_insert(s, idx as int, member, nn);
                assert(final(self).components@ == s.insert(idx as int, member));
            }
        }
        Ok(())
    }

    /// Move an existing member directly after the requested predecessor, or
    /// to the front when none is given. The member itself is left out of the
    /// planning snapshot — it cannot be its own neighbour — and keeps its
    /// identifier, text and template; only its position key changes. The
    /// write is conditional on the member still existing, and an unresolved
    /// predecessor is reported before the member's own existence is judged,
    /// as the planning step runs first.
    pub fn reposition(
        &mut self,
        authorized: bool,
        component_id: ComponentID,
        predecessor: Option<ComponentID>,
    ) -> (r: Result<(), ServiceError>)
        requires
            old(self).wf(),
            keys_below(old(self).components@, MAX_SORT_KEY_LEN as nat),
        ensures
            final(self).wf(),
            r matches Err(_) ==> final(self).components@ == old(self).components@,
            (r == Err::<(), ServiceError>(ServiceError::NotAuthorized)) <==> !authorized,
            (r == Err::<(), ServiceError>(ServiceError::PredecessorNotFound)) <==> (authorized
                && move_pred_missing(old(self).components@, component_id, predecessor)),
            (r == Err::<(), ServiceError>(ServiceError::MemberNotFound)) <==> (authorized
                && !move_pred_missing(old(self).components@, component_id, predecessor)
                && !contains_id(old(self).components@, component_id)),
            (r is Ok) <==> (authorized && !move_pred_missing(
                old(self).components@,
                component_id,
                predecessor,
            ) && contains_id(old(self).components@, component_id)),
            r is Ok ==> repositioned(
                old(self).components@,
                final(self).components@,
                component_id,
                predecessor,
            ),
            r is Ok ==> component_ids(final(self).components@) == reposition_ids(
                component_ids(old(self).components@),
                component_id,
                predecessor,
            ),
            r is Ok ==> forall|n: nat|
                1 <= n && #[trigger] keys_below(old(self).components@, n) ==> keys_below(
                    final(self).components@,
                    (n + 1) as nat,
                ),
    {
        if !authorized {
            return Err(ServiceError::NotAuthorized);
        }
        match find_component(&self.components, component_id) {
            None => {
                match predecessor {
                    None => Err(ServiceError::MemberNotFound),
                    Some(pid) => {
                        if pid == component_id {
                            return Err(ServiceError::PredecessorNotFound);
                        }
                        match find_component(&self.components, pid) {
                            None => Err(ServiceError::PredecessorNotFound),
                            Some(_) => Err(ServiceError::MemberNotFound),
                        }
                    },
                }
            },
            Some(im) => {
                let member = self.components.remove(im);
                proof {
                    lemma_remove_wf(old(self).components@, im as int);
                    assert(keys_below(self.components@, MAX_SORT_KEY_LEN as nat)) by {
                        assert forall|a: int|
                            0 <= a < self.components@.len() implies (
                        #[trigger] self.components@[a].ordering@).len() < MAX_SORT_KEY_LEN
                            as nat by {
                            let s = old(self).components@;
                            let sa: int = if a < im { a } else { a + 1 };
                            assert(self.components@[a] == s[sa]);
                        }
                    }
                }
                let key_opt = PromptComponent::create_sort_key(&self.components, predecessor);
                match key_opt {
                    None => {
                        proof {
                            let s = old(self).components@;
                            let pid = predecessor.unwrap();
                            if pid != component_id && contains_id(s, pid) {
                                let iw = choose|iw: int|
                                    0 <= iw < s.len() && (#[trigger] s[iw].component_id) == pid;
                                let rw: int = if iw < im { iw } else { iw - 1 };
                                assert(self.components@[rw] == s[iw]);
                                assert(contains_id(self.components@, pid));
                            }
                        }
                        self.components.insert(im, member);
                        proof {
                            assert(self.components@ =~= old(self).components@);
                        }
                        Err(ServiceError::PredecessorNotFound)
                    },
                    Some(key) => {
                        proof {
                            let s = old(self).components@;
                            let rest = self.components@;
                            if let Some(pid) = predecessor {
                                let iw = choose|iw: int|
                                    0 <= iw < rest.len() && (#[trigger] rest[iw].component_id)
                                        == pid;
                                let sw: int = if iw < im { iw } else { iw + 1 };
                                assert(rest[iw] == s[sw]);
                                assert(contains_id(s, pid));
                                assert(pid != component_id) by {
                                    if sw != im {
                                        assert(s[sw].component_id != s[im as int].component_id);
                                    }
                                }
                            }
                        }
                        let n = self.components.len();
                        let idx: usize = match predecessor {
                            None => 0,
                            Some(pid) => {
                                match find_component(&self.components, pid) {
                                    Some(i) => i + 1,
                                    None => {
                                        proof {
                                            assert(false);
                                        }
                                        0
                                    },
                                }
                            },
                        };
                        let mut member = member;
                        member.ordering = key;
                        let ghost rest = self.components@;
                        proof {
                            if let Some(pid) = predecessor {
                                let ip = choose|ip: int|
                                    0 <= ip < rest.len() && (#[trigger] rest[ip].component_id)
                                        == pid && crate::db::prompt::between_post(
                                        rest[ip].ordering@,
                                        crate::db::prompt::successor_key(rest, ip),
                                        member.ordering@,
                                    ) && member.ordering@.len()
                                        <= crate::db::prompt::between_len_bound(
                                        rest[ip].ordering@,
                                        crate::db::prompt::successor_key(rest, ip),
                                    );
                                if ip != idx - 1 {
                                    assert(rest[ip].component_id == rest[idx - 1].component_id);
                                    assert(false);
                                }
                            }
                            assert(!contains_id(rest, member.component_id)) by {
                                let s = old(self).components@;
                                if contains_id(rest, member.component_id) {
                                    let iw = choose|iw: int|
                                        0 <= iw < rest.len() && (#[trigger] rest[iw].component_id)
                                            == member.component_id;
                                    let sw: int = if iw < im { iw } else { iw + 1 };
                                    assert(rest[iw] == s[sw]);
                                    assert(sw != im);
                                    assert(s[sw].component_id != s[im as int].component_id);
                                }
                            }
                        }
                        self.components.insert(idx, member);
                        proof {
                            lemma_insert_wf(rest, idx as int, member);
                            let s = old(self).components@;
                            assert(repositioned(
                                s,
                                final(self).components@,
                                component_id,
                                predecessor,
                            )) by {
                                assert(rest == s.remove(im as int));
                                assert(final(self).components@ == s.remove(im as int).insert(
                                    idx as int,
                                    member,
                                ));
                            }
                            lemma_reposition_ids_match(s, im as int, idx as int, member, predecessor);
                            assert forall|nn: nat|
                                1 <= nn && #[trigger] keys_below(s, nn) implies keys_below(
                                final(self).components@,
                                (nn + 1) as nat,
                            ) by {
                                lemma_keys_below_remove(s, im as int, nn);
                                if let Some(pid) = predecessor {
                                    let ip = choose|ip: int|
                                        0 <= ip < rest.len() && (#[trigger] rest[ip].component_id)
                                            == pid && crate::db::prompt::between_post(
                                            rest[ip].ordering@,
                                            crate::db::prompt::successor_key(rest, ip),
                                            member.ordering@,
                                        ) && member.ordering@.len()
                                            <= crate::db::prompt::between_len_bound(
                                            rest[ip].ordering@,
                                            crate::db::prompt::successor_key(rest, ip),
                                        );
                                    assert(rest[ip].ordering@.len() < nn);
                                    if ip + 1 < rest.len() {
                                        assert(rest[ip + 1].ordering@.len() < nn);
                                    }
                                } else {
                                    if rest.len() > 0 {
                                        assert(rest[0].ordering@.len() < nn);
                                    }
                                }
                                assert(member.ordering@.len() < nn + 1);
                                lemma_keys_below_insert(rest, idx as int, member, nn);
                                assert(final(self).components@ == rest.insert(idx as int, member));
                            }
                        }
                        Ok(())
                    },
                }
            },
        }
    }
}

/// Ties the concrete move the service performed to the abstract order
/// transformation `reposition_ids`.
proof fn lemma_reposition_ids_match(
    s: Seq<PromptComponent>,
    im: int,
    idx: int,
    m: PromptComponent,
    predecessor: Option<ComponentID>,
)
    requires
        components_wf(s),
        0 <= im < s.len(),
        0 <= idx <= s.len() - 1,
        m.component_id == s[im].component_id,
        match predecessor {
            None => idx == 0,
            Some(pid) => idx > 0 && s.remove(im)[idx - 1].component_id == pid,
        },
    ensures
        component_ids(s.remove(im).insert(idx, m)) == reposition_ids(
            component_ids(s),
            s[im].component_id,
            predecessor,
        ),
{
    let ids = component_ids(s);
    let id = s[im].component_id;
    assert(ids_unique_seq(ids));
    assert(ids[im] == id);
    lemma_index_of_unique(ids, id, im);
    let rest = s.remove(im);
    let rest_ids = ids.remove(im);
    assert(component_ids(rest) =~= rest_ids) by {
        assert forall|a: int| 0 <= a < rest.len() implies #[trigger] component_ids(rest)[a]
            == rest_ids[a] by {
            let sa: int = if a < im { a } else { a + 1 };
            assert(rest[a] == s[sa]);
            assert(rest_ids[a] == ids[sa]);
        }
    }
    match predecessor {
        None => {
            assert(component_ids(rest.insert(0, m)) =~= rest_ids.insert(0, id)) by {
                lemma_ids_of_insert(rest, 0, m);
            }
        },
        Some(pid) => {
            assert(ids_unique_seq(rest_ids)) by {
                assert forall|a: int, b: int|
                    0 <= a < b < rest_ids.len() implies #[trigger] rest_ids[a] != #[trigger]
                rest_ids[b] by {
                    let sa: int = if a < im { a } else { a + 1 };
                    let sb: int = if b < im { b } else { b + 1 };
                    assert(rest_ids[a] == ids[sa]);
                    assert(rest_ids[b] == ids[sb]);
                }
            }
            assert(rest_ids[idx - 1] == pid) by {
                assert(component_ids(rest)[idx - 1] == rest[idx - 1].component_id);
            }
            lemma_index_of_unique(rest_ids, pid, idx - 1);
            assert(component_ids(rest.insert(idx, m)) =~= rest_ids.insert(idx, id)) by {
                lemma_ids_of_insert(rest, idx, m);
            }
        },
    }
}

/// Taking identifiers commutes with inserting one member.
proof fn lemma_ids_of_insert(s: Seq<PromptComponent>, i: int, m: PromptComponent)
    requires
        0 <= i <= s.len(),
    ensures
        component_ids(s.insert(i, m)) =~= component_ids(s).insert(i, m.component_id),
{
    let t = s.insert(i, m);
    assert forall|a: int| 0 <= a < t.len() implies #[trigger] component_ids(t)[a] == component_ids(
        s,
    ).insert(i, m.component_id)[a] by {
        if a < i {
            assert(t[a] == s[a]);
        } else if a == i {
            assert(t[a] == m);
        } else {
            assert(t[a] == s[a - 1]);
        }
    }
}

/// In a sequence without repeats the index of an identifier is the one place
/// it occurs.
proof fn lemma_index_of_unique(ids: Seq<ComponentID>, id: ComponentID, i: int)
    requires
        ids_unique_seq(ids),
        0 <= i < ids.len(),
        ids[i] == id,
    ensures
        index_of_id(ids, id) == i,
{
    let c = index_of_id(ids, id);
    assert(0 <= c < ids.len() && ids[c] == id);
    if c < i {
        assert(ids[c] != ids[i]);
    } else if c > i {
        assert(ids[i] != ids[c]);
    }
}

/// Repositioning a member twice in a row with the same requested predecessor
/// leaves the same relative order as doing it once: the target of the move
/// is idempotent, even though the literal position key planted by the second
/// move may differ from the first one.
pub proof fn lemma_reposition_order_idempotent(
    ids: Seq<ComponentID>,
    id: ComponentID,
    predecessor: Option<ComponentID>,
)
    requires
        ids_unique_seq(ids),
        contains_cid(ids, id),
        predecessor matches Some(pid) ==> pid != id && contains_cid(ids, pid),
    ensures
        reposition_ids(reposition_ids(ids, id, predecessor), id, predecessor) == reposition_ids(
            ids,
            id,
            predecessor,
        ),
{
    let i0 = choose|i: int| 0 <= i < ids.len() && ids[i] == id;
    lemma_index_of_unique(ids, id, i0);
    let rest = ids.remove(i0);
    assert(ids_unique_seq(rest) && !contains_cid(rest, id)) by {
        assert forall|a: int, b: int|
            0 <= a < b < rest.len() implies #[trigger] rest[a] != #[trigger] rest[b] by {
            let sa: int = if a < i0 { a } else { a + 1 };
            let sb: int = if b < i0 { b } else { b + 1 };
            assert(rest[a] == ids[sa]);
            assert(rest[b] == ids[sb]);
        }
        if contains_cid(rest, id) {
            let w = choose|w: int| 0 <= w < rest.len() && rest[w] == id;
            let sw: int = if w < i0 { w } else { w + 1 };
            assert(rest[w] == ids[sw]);
            assert(ids[sw] != ids[i0] || sw == i0);
        }
    }
    let inew: int = match predecessor {
        None => 0,
        Some(pid) => {
            let ip = choose|w: int| 0 <= w < rest.len() && rest[w] == pid;
            assert(0 <= ip < rest.len() && rest[ip] == pid) by {
                let iw = choose|w: int| 0 <= w < ids.len() && ids[w] == pid;
                assert(iw != i0);
                let rw: int = if iw < i0 { iw } else { iw - 1 };
                assert(rest[rw] == ids[iw]);
                assert(contains_cid(rest, pid));
            }
            lemma_index_of_unique(rest, pid, ip);
            ip + 1
        },
    };
    let r1 = rest.insert(inew, id);
    assert(reposition_ids(ids, id, predecessor) == r1);
    assert(ids_unique_seq(r1)) by {
        assert forall|a: int, b: int|
            0 <= a < b < r1.len() implies #[trigger] r1[a] != #[trigger] r1[b] by {
            if a != inew && b != inew {
                let sa: int = if a < inew { a } else { a - 1 };
                let sb: int = if b < inew { b } else { b - 1 };
                assert(r1[a] == rest[sa]);
                assert(r1[b] == rest[sb]);
            } else if a == inew {
                assert(r1[a] == id);
                assert(r1[b] == rest[b - 1]);
                assert(!contains_cid(rest, id));
                if rest[b - 1] == id {
                    assert(contains_cid(rest, id));
                }
            } else {
                assert(r1[b] == id);
                assert(r1[a] == rest[a]);
                if rest[a] == id {
                    assert(contains_cid(rest, id));
                }
            }
        }
    }
    assert(r1[inew] == id);
    lemma_index_of_unique(r1, id, inew);
    assert(r1.remove(inew) =~= rest) by {
        assert forall|a: int| 0 <= a < rest.len() implies #[trigger] r1.remove(inew)[a]
            == rest[a] by {
            if a < inew {
                assert(r1.remove(inew)[a] == r1[a]);
                assert(r1[a] == rest[a]);
            } else {
                assert(r1.remove(inew)[a] == r1[a + 1]);
                assert(r1[a + 1] == rest[a]);
            }
        }
    }
    match predecessor {
        None => {},
        Some(pid) => {
            assert(rest[inew - 1] == pid);
            lemma_index_of_unique(rest, pid, inew - 1);
        },
    }
    assert(reposition_ids(r1, id, predecessor) == r1);
}

/// Repositioning the same member twice in a row with the same requested
/// predecessor, with no mutation in between, succeeds both times and leaves
/// exactly the relative order a single reposition produces — even though
/// the literal position key planted by the second move may differ from the
/// first one. The one-character headroom under the length cap is what the
/// second call consumes.
pub fn reposition_twice_keeps_order(
    store: &mut SequenceStore,
    component_id: ComponentID,
    predecessor: Option<ComponentID>,
)
    requires
        old(store).wf(),
        keys_below(old(store).components@, (MAX_SORT_KEY_LEN - 1) as nat),
        contains_id(old(store).components@, component_id),
        !move_pred_missing(old(store).components@, component_id, predecessor),
    ensures
        final(store).wf(),
        component_ids(final(store).components@) == reposition_ids(
            component_ids(old(store).components@),
            component_id,
            predecessor,
        ),
{
    proof {
        lemma_keys_below_weaken(
            store.components@,
            (MAX_SORT_KEY_LEN - 1) as nat,
            MAX_SORT_KEY_LEN as nat,
        );
    }
    let r1 = store.reposition(true, component_id, predecessor);
    proof {
        assert(r1 is Ok);
    }
    let ghost s0 = old(store).components@;
    let ghost mid = store.components@;
    proof {
        assert(keys_below(mid, MAX_SORT_KEY_LEN as nat));
        let (iold, inew, m): (int, int, PromptComponent) = choose|
            iold: int,
            inew: int,
            m: PromptComponent,
        |
            {
                &&& 0 <= iold < s0.len()
                &&& s0[iold].component_id == component_id
                &&& m.component_id == component_id
                &&& m.text == s0[iold].text
                &&& m.template_id == s0[iold].template_id
                &&& valid_key(m.ordering@)
                &&& 0 <= inew <= s0.len() - 1
                &&& mid == #[trigger] s0.remove(iold).insert(inew, m)
                &&& match predecessor {
                    None => inew == 0,
                    Some(pid) => inew > 0 && s0.remove(iold)[inew - 1].component_id == pid,
                }
            };
        let rest = s0.remove(iold);
        assert(mid[inew] == m);
        assert(contains_id(mid, component_id));
        if let Some(pid) = predecessor {
            assert(mid[inew - 1] == rest[inew - 1]);
            assert(contains_id(mid, pid));
        }
        assert(!move_pred_missing(mid, component_id, predecessor));
    }
    let r2 = store.reposition(true, component_id, predecessor);
    proof {
        assert(r2 is Ok);
        let ids0 = component_ids(s0);
        assert(ids_unique_seq(ids0)) by {
            assert forall|i: int, j: int| 0 <= i < j < ids0.len() implies #[trigger] ids0[i] != (
            #[trigger] ids0[j]) by {
                assert(ids0[i] == s0[i].component_id);
                assert(ids0[j] == s0[j].component_id);
            }
        }
        assert(contains_cid(ids0, component_id)) by {
            let w = choose|w: int|
                0 <= w < s0.len() && (#[trigger] s0[w].component_id) == component_id;
            assert(ids0[w] == component_id);
        }
        if let Some(pid) = predecessor {
            assert(contains_cid(ids0, pid)) by {
                let w = choose|w: int| 0 <= w < s0.len() && (#[trigger] s0[w].component_id) == pid;
                assert(ids0[w] == pid);
            }
        }
        lemma_reposition_order_idempotent(ids0, component_id, predecessor);
        assert(component_ids(store.components@) == component_ids(mid));
    }
}

} // verus!
