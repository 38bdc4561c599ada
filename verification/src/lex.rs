//! Strict lexicographic order on character sequences.
//!
//! Position keys are compared as plain strings, character by character by
//! code point, so the whole ordering subsystem rests on this one relation.

use vstd::prelude::*;
use vstd::string::StrSliceExecFns;

verus! {

/// `a` sorts strictly before `b`: at the first index where they differ the
/// character of `a` is smaller, or `a` is a proper prefix of `b`.
pub open spec fn lex_lt(a: Seq<char>, b: Seq<char>) -> bool
    decreases a.len(),
{
    if b.len() == 0 {
        false
    } else if a.len() == 0 {
        true
    } else if (a[0] as u32) < (b[0] as u32) {
        true
    } else if a[0] == b[0] {
        lex_lt(a.drop_first(), b.drop_first())
    } else {
        false
    }
}

/// Compare two strings in strict lexicographic order.
pub fn str_lt(a: &str, b: &str) -> (r: bool)
    ensures
        r == lex_lt(a@, b@),
{
    let a_len = a.unicode_len();
    let b_len = b.unicode_len();
    let mut i: usize = 0;
    proof {
        assert(a@.skip(0) =~= a@);
        assert(b@.skip(0) =~= b@);
    }
    loop
        invariant
            i <= a_len,
            i <= b_len,
            a_len == a@.len(),
            b_len == b@.len(),
            lex_lt(a@, b@) == lex_lt(a@.skip(i as int), b@.skip(i as int)),
        decreases a_len - i,
    {
        if i == b_len {
            return false;
        }
        if i == a_len {
            return true;
        }
        let ca = a.get_char(i);
        let cb = b.get_char(i);
        if ca == cb {
            proof {
                assert(a@.skip(i as int).drop_first() =~= a@.skip(i as int + 1));
                assert(b@.skip(i as int).drop_first() =~= b@.skip(i as int + 1));
            }
            i = i + 1;
        } else if (ca as u32) < (cb as u32) {
            return true;
        } else {
            return false;
        }
    }
}

/// No sequence sorts before itself.
pub proof fn lemma_lex_lt_irreflexive(a: Seq<char>)
    ensures
        !lex_lt(a, a),
    decreases a.len(),
{
    if a.len() > 0 {
        lemma_lex_lt_irreflexive(a.drop_first());
    }
}

/// The order is transitive.
pub proof fn lemma_lex_lt_transitive(a: Seq<char>, b: Seq<char>, c: Seq<char>)
    requires
        lex_lt(a, b),
        lex_lt(b, c),
    ensures
        lex_lt(a, c),
    decreases a.len(),
{
    if a.len() > 0 && b.len() > 0 && c.len() > 0 {
        if a[0] == b[0] && b[0] == c[0] {
            lemma_lex_lt_transitive(a.drop_first(), b.drop_first(), c.drop_first());
        }
    }
}

/// A proper prefix sorts strictly before any extension of it.
pub proof fn lemma_proper_prefix_lt(a: Seq<char>, b: Seq<char>)
    requires
        a.len() < b.len(),
        b.subrange(0, a.len() as int) =~= a,
    ensures
        lex_lt(a, b),
    decreases a.len(),
{
    if a.len() > 0 {
        assert(b.subrange(0, a.len() as int)[0] == b[0]);
        assert(b.drop_first().subrange(0, a.len() - 1) =~= a.drop_first());
        lemma_proper_prefix_lt(a.drop_first(), b.drop_first());
    }
}

/// Sequences that agree up to an index where the first holds the smaller
/// character are strictly ordered.
pub proof fn lemma_common_prefix_lt(a: Seq<char>, b: Seq<char>, i: int)
    requires
        0 <= i < a.len(),
        i < b.len(),
        a.subrange(0, i) =~= b.subrange(0, i),
        (a[i] as u32) < (b[i] as u32),
    ensures
        lex_lt(a, b),
    decreases i,
{
    if i > 0 {
        assert(a.subrange(0, i)[0] == a[0]);
        assert(a[0] == b[0]);
        assert(a.drop_first().subrange(0, i - 1) =~= b.drop_first().subrange(0, i - 1)) by {
            assert forall|j: int| 0 <= j < i - 1 implies #[trigger] a.drop_first().subrange(
                0,
                i - 1,
            )[j] == b.drop_first().subrange(0, i - 1)[j] by {
                assert(a.subrange(0, i)[j + 1] == b.subrange(0, i)[j + 1]);
            }
        }
        lemma_common_prefix_lt(a.drop_first(), b.drop_first(), i - 1);
    }
}

/// An ordered pair either has the first as a proper prefix of the second, or
/// the two differ at some index where the first holds the smaller character.
pub proof fn lemma_lex_lt_first_diff(a: Seq<char>, b: Seq<char>)
    requires
        lex_lt(a, b),
    ensures
        (a.len() < b.len() && b.subrange(0, a.len() as int) =~= a) || exists|i: int|
            0 <= i < a.len() && i < b.len() && a.subrange(0, i) =~= b.subrange(0, i) && (a[i]
                as u32) < (b[i] as u32),
    decreases a.len(),
{
    if a.len() == 0 {
        assert(b.subrange(0, 0) =~= a);
    } else if (a[0] as u32) < (b[0] as u32) {
        assert(a.subrange(0, 0) =~= b.subrange(0, 0));
        assert(0 <= 0 < a.len() && 0 < b.len() && a.subrange(0, 0) =~= b.subrange(0, 0) && (a[0]
            as u32) < (b[0] as u32));
    } else {
        lemma_lex_lt_first_diff(a.drop_first(), b.drop_first());
        if a.drop_first().len() < b.drop_first().len() && b.drop_first().subrange(
            0,
            a.drop_first().len() as int,
        ) =~= a.drop_first() {
            assert(b.subrange(0, a.len() as int) =~= a) by {
                assert forall|j: int| 0 <= j < a.len() implies #[trigger] b.subrange(
                    0,
                    a.len() as int,
                )[j] == a[j] by {
                    if j > 0 {
                        assert(b.drop_first().subrange(0, a.drop_first().len() as int)[j - 1]
                            == a.drop_first()[j - 1]);
                    }
                }
            }
        } else {
            let i = choose|i: int|
                0 <= i < a.drop_first().len() && i < b.drop_first().len()
                    && a.drop_first().subrange(0, i) =~= b.drop_first().subrange(0, i) && (
                a.drop_first()[i] as u32) < (b.drop_first()[i] as u32);
            assert(a.subrange(0, i + 1) =~= b.subrange(0, i + 1)) by {
                assert forall|j: int| 0 <= j < i + 1 implies #[trigger] a.subrange(0, i + 1)[j]
                    == b.subrange(0, i + 1)[j] by {
                    if j > 0 {
                        assert(a.drop_first().subrange(0, i)[j - 1] == b.drop_first().subrange(
                            0,
                            i,
                        )[j - 1]);
                    }
                }
            }
            assert(0 <= i + 1 < a.len() && i + 1 < b.len() && a.subrange(0, i + 1) =~= b.subrange(
                0,
                i + 1,
            ) && (a[i + 1] as u32) < (b[i + 1] as u32));
        }
    }
}

} // verus!
