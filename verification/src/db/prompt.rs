//! Prompt-template components and their position keys.
//!
//! A component's place in its template is given by an opaque `ordering`
//! string; components sort by plain lexicographic comparison of those
//! strings. `create_sort_key_between` produces a fresh key strictly between
//! any two existing keys, so a component can be inserted at an arbitrary
//! point without renumbering its neighbours.

use crate::lex::{
    lemma_common_prefix_lt, lemma_lex_lt_first_diff, lemma_lex_lt_irreflexive,
    lemma_lex_lt_transitive, lemma_proper_prefix_lt, lex_lt, str_lt,
};
use vstd::prelude::*;
use vstd::string::{StrSliceExecFns, StringExecFns};

verus! {

/// Identifier of a prompt template; components of one template form one
/// ordered sequence.
#[derive(Debug)]
pub struct TemplateID(pub String);

impl Default for TemplateID {
    /// The single template the service currently manages.
    fn default() -> (r: Self)
        ensures
            r.0@ == "default-tempalte"@,
    {
        TemplateID("default-tempalte".to_owned())
    }
}

/// Stable identifier of one prompt component, minted by the counter.
#[derive(Clone, Copy, Debug, PartialEq, Eq, Structural)]
pub struct ComponentID(pub u64);

/// One ordered fragment of a prompt template.
#[derive(Debug)]
pub struct PromptComponent {
    pub component_id: ComponentID,
    pub template_id: TemplateID,
    pub ordering: String,
    pub text: String,
}

/// Longest a position key may grow. Reaching it would mean a pathological
/// number of insertions at the same spot without rebalancing, which the
/// design treats as a programming error rather than a recoverable one.
pub const MAX_SORT_KEY_LEN: usize = 100000;

/// A position key as this codec produces it: a non-empty string of the
/// digits `'0'` and `'1'` whose last character is `'1'`. The final high
/// digit is what guarantees a lower key can always be built by extending
/// the prefix with low digits.
pub open spec fn valid_key(s: Seq<char>) -> bool {
    &&& s.len() > 0
    &&& s[s.len() - 1] == '1'
    &&& forall|i: int| 0 <= i < s.len() ==> s[i] == '0' || s[i] == '1'
}

/// The shape of every key the codec builds: a prefix, `k` low digits, and
/// one final high digit.
pub open spec fn key_stem(p: Seq<char>, k: nat) -> Seq<char> {
    p + Seq::new(k, |i: int| '0') + seq!['1']
}

/// The key the lower bound contributes: the predecessor's key, or the empty
/// string when inserting at the front.
pub open spec fn pred_seq(predecessor: Option<&str>) -> Seq<char> {
    match predecessor {
        Some(p) => p@,
        None => Seq::empty(),
    }
}

/// The upper bound as a sequence, when there is one.
pub open spec fn succ_seq(successor: Option<&str>) -> Option<Seq<char>> {
    match successor {
        Some(s) => Some(s@),
        None => None,
    }
}

/// Everything `create_sort_key_between` promises about its result `r`,
/// given the lower bound `p` and the optional upper bound `s`: the result
/// is a valid key strictly between the bounds, built by extending `p` with
/// the fewest low digits that still sort below `s`.
pub open spec fn between_post(p: Seq<char>, s: Option<Seq<char>>, r: Seq<char>) -> bool {
    &&& valid_key(r)
    &&& lex_lt(p, r)
    &&& (s matches Some(sv) ==> lex_lt(r, sv) && (exists|k: nat|
        r == #[trigger] key_stem(p, k) && (forall|j: nat|
            j < k ==> !lex_lt(#[trigger] key_stem(p, j), sv))))
    &&& (s is None ==> r == key_stem(p, 0))
}

/// Keys lengthen by at most one digit past the longer bound.
pub open spec fn between_len_bound(p: Seq<char>, s: Option<Seq<char>>) -> nat {
    match s {
        Some(sv) => if p.len() >= sv.len() {
            p.len() + 1
        } else {
            sv.len() + 1
        },
        None => p.len() + 1,
    }
}
/// The prefix sorts strictly before every stem built from it.
pub proof fn lemma_stem_gt_prefix(p: Seq<char>, k: nat)
    ensures
        lex_lt(p, key_stem(p, k)),
{
    let r = key_stem(p, k);
    assert(r.subrange(0, p.len() as int) =~= p);
    lemma_proper_prefix_lt(p, r);
}

/// A stem built from a valid (or empty) prefix is itself a valid key.
pub proof fn lemma_stem_valid(p: Seq<char>, k: nat)
    requires
        p.len() == 0 || valid_key(p),
    ensures
        valid_key(key_stem(p, k)),
{
    let r = key_stem(p, k);
    assert forall|i: int| 0 <= i < r.len() implies r[i] == '0' || r[i] == '1' by {
        if i < p.len() {
            assert(r[i] == p[i]);
        }
    }
}

/// Number of leading low digits of a sequence.
spec fn leading_zeros(s: Seq<char>) -> nat
    decreases s.len(),
{
    if s.len() == 0 {
        0
    } else if s[0] == '0' {
        1 + leading_zeros(s.drop_first())
    } else {
        0
    }
}

proof fn lemma_leading_zeros(s: Seq<char>)
    ensures
        leading_zeros(s) <= s.len(),
        forall|i: int| 0 <= i < leading_zeros(s) ==> s[i] == '0',
        leading_zeros(s) < s.len() ==> s[leading_zeros(s) as int] != '0',
    decreases s.len(),
{
    if s.len() > 0 && s[0] == '0' {
        lemma_leading_zeros(s.drop_first());
        assert forall|i: int| 0 <= i < leading_zeros(s) implies s[i] == '0' by {
            if i > 0 {
                assert(s.drop_first()[i - 1] == '0');
            }
        }
    }
}

/// Between any two strictly ordered valid keys a stem of the lower one fits:
/// some number of low digits brings the candidate strictly below the upper
/// key, without growing past the upper key's length unless no digits are
/// needed at all.
pub proof fn lemma_fit_exists(p: Seq<char>, s: Seq<char>)
    requires
        p.len() == 0 || valid_key(p),
        valid_key(s),
        lex_lt(p, s),
    ensures
        exists|k: nat|
            lex_lt(#[trigger] key_stem(p, k), s) && (k == 0 || p.len() + k <= s.len()),
{
    lemma_lex_lt_first_diff(p, s);
    if p.len() < s.len() && s.subrange(0, p.len() as int) =~= p {
        let rest = s.skip(p.len() as int);
        assert(rest.len() == s.len() - p.len());
        assert(rest[rest.len() - 1] == s[s.len() - 1]);
        assert forall|i: int| 0 <= i < rest.len() implies rest[i] == '0' || rest[i] == '1' by {
            assert(rest[i] == s[p.len() + i]);
        }
        lemma_leading_zeros(rest);
        let j = leading_zeros(rest);
        assert(j < rest.len()) by {
            if j == rest.len() {
                assert(rest[rest.len() - 1] == '0');
            }
        }
        assert(rest[j as int] == '1');
        let k = j + 1;
        let r = key_stem(p, k);
        let d = p.len() + j;
        assert(r.subrange(0, d as int) =~= s.subrange(0, d as int)) by {
            assert forall|i: int| 0 <= i < d implies #[trigger] r[i] == s[i] by {
                if i < p.len() {
                    assert(r[i] == p[i]);
                    assert(s.subrange(0, p.len() as int)[i] == s[i]);
                } else {
                    assert(r[i] == '0');
                    assert(s[i] == rest[i - p.len()]);
                    assert(rest[i - p.len()] == '0');
                }
            }
        }
        assert(r[d as int] == '0');
        assert(s[d as int] == rest[j as int]);
        lemma_common_prefix_lt(r, s, d as int);
        assert(lex_lt(key_stem(p, k), s) && (k == 0 || p.len() + k <= s.len()));
    } else {
        let i = choose|i: int|
            0 <= i < p.len() && i < s.len() && p.subrange(0, i) =~= s.subrange(0, i) && (p[i]
                as u32) < (s[i] as u32);
        let r = key_stem(p, 0);
        assert(r.subrange(0, i) =~= s.subrange(0, i)) by {
            assert forall|m: int| 0 <= m < i implies #[trigger] r[m] == s[m] by {
                assert(r[m] == p[m]);
                assert(p.subrange(0, i)[m] == s.subrange(0, i)[m]);
            }
        }
        assert(r[i] == p[i]);
        lemma_common_prefix_lt(r, s, i);
        assert(lex_lt(key_stem(p, 0), s) && (0 == 0 || p.len() + 0 <= s.len()));
    }
}

/// Members of a snapshot are in strictly ascending position-key order.
pub open spec fn components_sorted(s: Seq<PromptComponent>) -> bool {
    forall|i: int, j: int|
        0 <= i < j < s.len() ==> lex_lt(#[trigger] s[i].ordering@, #[trigger] s[j].ordering@)
}

/// No two members of a snapshot share an identifier.
pub open spec fn component_ids_unique(s: Seq<PromptComponent>) -> bool {
    forall|i: int, j: int|
        0 <= i < j < s.len() ==> (#[trigger] s[i].component_id) != (#[trigger] s[j].component_id)
}

/// Every position key in the snapshot is one the codec could have produced.
pub open spec fn components_keys_valid(s: Seq<PromptComponent>) -> bool {
    forall|i: int| 0 <= i < s.len() ==> valid_key(#[trigger] s[i].ordering@)
}

/// Every position key in the snapshot is shorter than `n`.
pub open spec fn keys_below(s: Seq<PromptComponent>, n: nat) -> bool {
    forall|i: int| 0 <= i < s.len() ==> (#[trigger] s[i].ordering@).len() < n
}

/// A bound on every key's length is still a bound at any higher cap: the
/// step that lets one operation's key-length guarantee feed the next
/// operation's precondition.
pub proof fn lemma_keys_below_weaken(s: Seq<PromptComponent>, n: nat, m: nat)
    requires
        keys_below(s, n),
        n <= m,
    ensures
        keys_below(s, m),
{
    assert forall|i: int| 0 <= i < s.len() implies (#[trigger] s[i].ordering@).len() < m by {
        assert(s[i].ordering@.len() < n);
    }
}

/// A well-formed snapshot of one template's components, as a range read of
/// the backing index returns it.
pub open spec fn components_wf(s: Seq<PromptComponent>) -> bool {
    components_sorted(s) && component_ids_unique(s) && components_keys_valid(s)
}

/// Whether the snapshot holds a member with the given identifier.
pub open spec fn contains_id(s: Seq<PromptComponent>, id: ComponentID) -> bool {
    exists|i: int| 0 <= i < s.len() && (#[trigger] s[i].component_id) == id
}

/// The upper bound a key planned right after index `idx` must stay below:
/// the next member's key, or nothing when `idx` is last.
pub open spec fn successor_key(s: Seq<PromptComponent>, idx: int) -> Option<Seq<char>> {
    if idx + 1 < s.len() {
        Some(s[idx + 1].ordering@)
    } else {
        None
    }
}

impl PromptComponent {
    /// Build a brand-new component for the managed template: given its
    /// freshly minted identifier and planned position, with empty text.
    pub fn new(component_id: ComponentID, ordering: String) -> (r: Self)
        ensures
            r.component_id == component_id,
            r.template_id.0@ == "default-tempalte"@,
            r.ordering == ordering,
            r.text@ == Seq::<char>::empty(),
    {
        PromptComponent {
            component_id,
            template_id: TemplateID::default(),
            ordering,
            text: String::new(),
        }
    }

    /// Given two lexicographically sorted keys produced by this function,
    /// return a new key whose sorting order is strictly between the
    /// provided keys; an absent predecessor stands for the conceptual lower
    /// bound (the empty string) and an absent successor for the open upper
    /// end. The candidate starts as the predecessor plus one high digit and
    /// gains low digits one at a time, just before its final character,
    /// until it drops below the successor.
    #[verifier::loop_isolation(false)]
    pub fn create_sort_key_between(predecessor: Option<&str>, successor: Option<&str>) -> (r:
        String)
        requires
            predecessor matches Some(p) ==> valid_key(p@) && p@.len() < MAX_SORT_KEY_LEN,
            successor matches Some(s) ==> valid_key(s@) && s@.len() < MAX_SORT_KEY_LEN,
            predecessor matches Some(p) ==> successor matches Some(s) ==> lex_lt(p@, s@),
        ensures
            between_post(pred_seq(predecessor), succ_seq(successor), r@),
            r@.len() <= between_len_bound(pred_seq(predecessor), succ_seq(successor)),
            r@.len() <= MAX_SORT_KEY_LEN,
            predecessor matches Some(p) ==> lex_lt(p@, r@),
            successor matches Some(s) ==> lex_lt(r@, s@),
    {
        let ghost pb: Seq<char> = pred_seq(predecessor);
        let pred: &str = match predecessor {
            Some(p) => p,
            None => "",
        };
        proof {
            reveal_strlit("");
            assert(pred@ =~= pb);
        }
        let mut stem: String = pred.to_owned();
        let mut k: usize = 0;
        proof {
            assert(stem@ =~= pb + Seq::new(0, |i: int| '0'));
        }
        match successor {
            None => {
                let r = stem.concat("1");
                proof {
                    reveal_strlit("1");
                    assert(r@ =~= key_stem(pb, 0));
                    lemma_stem_valid(pb, 0);
                    lemma_stem_gt_prefix(pb, 0);
                }
                r
            },
            Some(succ) => {
                proof {
                    if predecessor is None {
                        assert(lex_lt(pb, succ@));
                    }
                    lemma_fit_exists(pb, succ@);
                }
                let ghost k0: nat = choose|k0: nat|
                    lex_lt(#[trigger] key_stem(pb, k0), succ@) && (k0 == 0 || pb.len() + k0
                        <= succ@.len());
                loop
                    invariant
                        k <= k0,
                        stem@ =~= pb + Seq::new(k as nat, |i: int| '0'),
                        lex_lt(key_stem(pb, k0), succ@),
                        k0 == 0 || pb.len() + k0 <= succ@.len(),
                        pb.len() == 0 || valid_key(pb),
                        pb.len() < MAX_SORT_KEY_LEN,
                        valid_key(succ@) && succ@.len() < MAX_SORT_KEY_LEN,
                        forall|j: nat| j < k ==> !lex_lt(#[trigger] key_stem(pb, j), succ@),
                    decreases k0 - k,
                {
                    let candidate = stem.clone().concat("1");
                    proof {
                        reveal_strlit("1");
                        assert(candidate@ =~= key_stem(pb, k as nat));
                    }
                    if str_lt(candidate.as_str(), succ) {
                        proof {
                            lemma_stem_valid(pb, k as nat);
                            lemma_stem_gt_prefix(pb, k as nat);
                        }
                        return candidate;
                    }
                    proof {
                        assert(k < k0);
                    }
                    stem.append("0");
                    proof {
                        reveal_strlit("0");
                        assert(stem@ =~= pb + Seq::new((k + 1) as nat, |i: int| '0'));
                    }
                    k = k + 1;
                }
            },
        }
    }

    /// Plan the position key for a member to be placed right after
    /// `predecessor` (or at the front when no predecessor is given), against
    /// the given ordered snapshot of the template's members. Returns `None`
    /// exactly when the requested predecessor is not in the snapshot. The
    /// plan is advisory: it is correct as of this snapshot, and the caller
    /// must still apply it under a conditional write.
    pub fn create_sort_key(components: &Vec<PromptComponent>, predecessor: Option<ComponentID>)
        -> (r: Option<String>)
        requires
            components_wf(components@),
            keys_below(components@, MAX_SORT_KEY_LEN as nat),
        ensures
            predecessor is None ==> r is Some,
            predecessor matches Some(id) ==> ((r is Some) <==> contains_id(components@, id)),
            predecessor is None ==> (r matches Some(key) ==> between_post(
                Seq::empty(),
                successor_key(components@, -1),
                key@,
            ) && key@.len() <= between_len_bound(Seq::empty(), successor_key(components@, -1))),
            predecessor matches Some(id) ==> (r matches Some(key) ==> exists|i: int|
                0 <= i < components@.len() && (#[trigger] components@[i].component_id) == id
                    && between_post(components@[i].ordering@, successor_key(components@, i), key@)
                    && key@.len() <= between_len_bound(
                    components@[i].ordering@,
                    successor_key(components@, i),
                )),
    {
        match predecessor {
            None => {
                if components.len() > 0 {
                    let first: &str = components[0].ordering.as_str();
                    Some(Self::create_sort_key_between(None, Some(first)))
                } else {
                    Some(Self::create_sort_key_between(None, None))
                }
            },
            Some(id) => {
                match find_component(components, id) {
                    None => None,
                    Some(i) => {
                        let n = components.len();
                        let pred_key: &str = components[i].ordering.as_str();
                        if i + 1 < n {
                            let succ: &str = components[i + 1].ordering.as_str();
                            Some(Self::create_sort_key_between(Some(pred_key), Some(succ)))
                        } else {
                            Some(Self::create_sort_key_between(Some(pred_key), None))
                        }
                    },
                }
            },
        }
    }
}

/// Index of the member with the given identifier, if the snapshot holds one.
pub fn find_component(components: &Vec<PromptComponent>, id: ComponentID) -> (r: Option<usize>)
    ensures
        match r {
            Some(i) => i < components@.len() && components@[i as int].component_id == id,
            None => !contains_id(components@, id),
        },
{
    let n = components.len();
    let mut i: usize = 0;
    while i < n
        invariant
            i <= n,
            n == components@.len(),
            forall|j: int| 0 <= j < i ==> (#[trigger] components@[j].component_id) != id,
        decreases n - i,
    {
        if components[i].component_id == id {
            return Some(i);
        }
        i = i + 1;
    }
    None
}

/// The codec is a pure function: two keys planned between the same pair of
/// bounds are identical, so concurrent planners diverge only when their
/// snapshots differ.
pub proof fn lemma_between_deterministic(
    p: Seq<char>,
    s: Option<Seq<char>>,
    r1: Seq<char>,
    r2: Seq<char>,
)
    requires
        between_post(p, s, r1),
        between_post(p, s, r2),
    ensures
        r1 == r2,
{
    if let Some(sv) = s {
        let k1 = choose|k: nat|
            r1 == #[trigger] key_stem(p, k) && (forall|j: nat|
                j < k ==> !lex_lt(#[trigger] key_stem(p, j), sv));
        let k2 = choose|k: nat|
            r2 == #[trigger] key_stem(p, k) && (forall|j: nat|
                j < k ==> !lex_lt(#[trigger] key_stem(p, j), sv));
        if k1 < k2 {
            assert(!lex_lt(key_stem(p, k1), sv));
        } else if k2 < k1 {
            assert(!lex_lt(key_stem(p, k2), sv));
        }
    }
}

proof fn lemma_chain_desc(lower: Seq<char>, chain: Seq<Seq<char>>, m: int, n: int)
    requires
        forall|h: int|
            1 <= h < chain.len() ==> between_post(lower, Some(chain[h - 1]), #[trigger] chain[h]),
        0 <= m < n < chain.len(),
    ensures
        lex_lt(chain[n], chain[m]),
    decreases n - m,
{
    if m == n - 1 {
        assert(between_post(lower, Some(chain[n - 1]), chain[n]));
    } else {
        lemma_chain_desc(lower, chain, m, n - 1);
        assert(between_post(lower, Some(chain[n - 1]), chain[n]));
        lemma_lex_lt_transitive(chain[n], chain[n - 1], chain[m]);
    }
}

proof fn lemma_chain_len(lower: Seq<char>, chain: Seq<Seq<char>>, n: int)
    requires
        chain.len() > 0,
        forall|h: int|
            1 <= h < chain.len() ==> between_post(lower, Some(chain[h - 1]), #[trigger] chain[h])
                && (#[trigger] chain[h]).len() <= between_len_bound(lower, Some(chain[h - 1])),
        0 <= n < chain.len(),
    ensures
        chain[n].len() <= vstd::math::max(lower.len() as int + 1, chain[0].len() as int) + n,
    decreases n,
{
    if n > 0 {
        lemma_chain_len(lower, chain, n - 1);
    }
}

/// Repeated insertion at one location: a chain of keys in which every key
/// past the first was planned by the codec between the fixed lower key
/// `lower` and the key planned just before it — which is exactly what
/// inserting again and again after the same member produces — stays strictly
/// ordered, collision-free, strictly between the original pair, and grows by
/// at most one character per insertion, so any number of insertions fits
/// under the length cap as long as the original keys leave that much room.
pub proof fn lemma_repeatable_insertion(lower: Seq<char>, chain: Seq<Seq<char>>)
    requires
        chain.len() > 0,
        lex_lt(lower, chain[0]),
        forall|n: int|
            1 <= n < chain.len() ==> between_post(lower, Some(chain[n - 1]), #[trigger] chain[n])
                && (#[trigger] chain[n]).len() <= between_len_bound(lower, Some(chain[n - 1])),
    ensures
        forall|m: int, n: int|
            0 <= m < n < chain.len() ==> lex_lt(#[trigger] chain[n], #[trigger] chain[m]),
        forall|m: int, n: int|
            0 <= m < n < chain.len() ==> (#[trigger] chain[n]) != (#[trigger] chain[m]),
        forall|n: int| 1 <= n < chain.len() ==> lex_lt(lower, #[trigger] chain[n]),
        forall|n: int|
            0 <= n < chain.len() ==> (#[trigger] chain[n]).len() <= vstd::math::max(
                lower.len() as int + 1,
                chain[0].len() as int,
            ) + n,
{
    assert forall|m: int, n: int| 0 <= m < n < chain.len() implies lex_lt(
        #[trigger] chain[n],
        #[trigger] chain[m],
    ) by {
        lemma_chain_desc(lower, chain, m, n);
    }
    assert forall|m: int, n: int| 0 <= m < n < chain.len() implies (#[trigger] chain[n]) != (
    #[trigger] chain[m]) by {
        if chain[n] == chain[m] {
            lemma_lex_lt_irreflexive(chain[m]);
        }
    }
    assert forall|n: int| 0 <= n < chain.len() implies (#[trigger] chain[n]).len()
        <= vstd::math::max(lower.len() as int + 1, chain[0].len() as int) + n by {
        lemma_chain_len(lower, chain, n);
    }
}

} // verus!
