//! Canonical account identity: the key type for all per-account contract
//! state. Two wrappers are equal exactly when the underlying raw identifiers
//! are byte-equal, and the ordering is the lexicographic order on the raw
//! bytes, so that a map keyed by accounts iterates deterministically on every
//! replica.

use vstd::prelude::*;
use vstd::std_specs::cmp::PartialEqSpec;

verus! {

/// Comparable, orderable wrapper around a raw chain account identifier.
#[derive(Debug, PartialEq, Eq, PartialOrd, Ord, Hash)]
pub struct AccountIdWrapper(pub Vec<u8>);

impl Clone for AccountIdWrapper {
    /// A clone carries the same raw identifier bytes.
    fn clone(&self) -> (r: Self)
        ensures
            r@ == self@,
    {
        let bytes = self.0.clone();
        proof {
            assert(bytes@ =~= self.0@);
        }
        AccountIdWrapper(bytes)
    }
}

impl View for AccountIdWrapper {
    type V = Seq<u8>;

    open spec fn view(&self) -> Seq<u8> {
        self.0@
    }
}

/// Lexicographic order on raw identifier bytes: the strict total order under
/// which accounts key the contract state.
pub open spec fn lex_lt(a: Seq<u8>, b: Seq<u8>) -> bool
    decreases a.len(),
{
    if b.len() == 0 {
        false
    } else if a.len() == 0 {
        true
    } else if a[0] < b[0] {
        true
    } else if a[0] > b[0] {
        false
    } else {
        lex_lt(a.subrange(1, a.len() as int), b.subrange(1, b.len() as int))
    }
}

/// No identifier is below itself.
pub proof fn lemma_lex_lt_irreflexive(a: Seq<u8>)
    ensures
        !lex_lt(a, a),
    decreases a.len(),
{
    if a.len() > 0 {
        lemma_lex_lt_irreflexive(a.subrange(1, a.len() as int));
    }
}

/// The order composes: below and below again is still below.
pub proof fn lemma_lex_lt_transitive(a: Seq<u8>, b: Seq<u8>, c: Seq<u8>)
    requires
        lex_lt(a, b),
        lex_lt(b, c),
    ensures
        lex_lt(a, c),
    decreases a.len(),
{
    if c.len() == 0 {
        assert(false);
    } else if a.len() == 0 {
    } else {
        if b.len() == 0 {
            assert(false);
        }
        if a[0] == b[0] && b[0] == c[0] {
            lemma_lex_lt_transitive(
                a.subrange(1, a.len() as int),
                b.subrange(1, b.len() as int),
                c.subrange(1, c.len() as int),
            );
        }
    }
}

/// Any two identifiers are comparable: the order is total.
pub proof fn lemma_lex_lt_trichotomy(a: Seq<u8>, b: Seq<u8>)
    ensures
        lex_lt(a, b) || lex_lt(b, a) || a == b,
    decreases a.len(),
{
    if a.len() == 0 && b.len() == 0 {
        assert(a =~= b);
    } else if a.len() > 0 && b.len() > 0 && a[0] == b[0] {
        let a1 = a.subrange(1, a.len() as int);
        let b1 = b.subrange(1, b.len() as int);
        lemma_lex_lt_trichotomy(a1, b1);
        if !lex_lt(a, b) && !lex_lt(b, a) {
            assert(a1 == b1);
            assert(a.len() == b.len());
            assert forall|i: int| 0 <= i < a.len() implies a[i] == b[i] by {
                if i >= 1 {
                    assert(a1[i - 1] == b1[i - 1]);
                }
            }
            assert(a =~= b);
        }
    }
}

/// At most one of `lex_lt(a, b)` and `lex_lt(b, a)` holds, and neither holds
/// between equal identifiers; together with totality and transitivity this
/// makes `lex_lt` a strict total order.
pub proof fn lemma_lex_lt_asymmetric(a: Seq<u8>, b: Seq<u8>)
    requires
        lex_lt(a, b),
    ensures
        !lex_lt(b, a),
        a != b,
{
    if lex_lt(b, a) {
        lemma_lex_lt_transitive(a, b, a);
        lemma_lex_lt_irreflexive(a);
    }
    if a == b {
        lemma_lex_lt_irreflexive(a);
    }
}

/// Dropping an equal prefix from both identifiers does not change how they
/// compare.
proof fn lemma_lex_lt_common_prefix(a: Seq<u8>, b: Seq<u8>, i: int)
    requires
        0 <= i <= a.len(),
        i <= b.len(),
        forall|j: int| 0 <= j < i ==> a[j] == b[j],
    ensures
        lex_lt(a, b) == lex_lt(
            a.subrange(i, a.len() as int),
            b.subrange(i, b.len() as int),
        ),
    decreases i,
{
    if i == 0 {
        assert(a.subrange(0, a.len() as int) =~= a);
        assert(b.subrange(0, b.len() as int) =~= b);
    } else {
        let a1 = a.subrange(1, a.len() as int);
        let b1 = b.subrange(1, b.len() as int);
        assert(forall|j: int| 0 <= j < i - 1 ==> a1[j] == #[trigger] b1[j]);
        lemma_lex_lt_common_prefix(a1, b1, i - 1);
        assert(a1.subrange(i - 1, a1.len() as int) =~= a.subrange(i, a.len() as int));
        assert(b1.subrange(i - 1, b1.len() as int) =~= b.subrange(i, b.len() as int));
    }
}

impl AccountIdWrapper {
    /// Byte-level equality of the underlying raw identifiers.
    pub fn key_eq(&self, other: &AccountIdWrapper) -> (r: bool)
        ensures
            r == (self@ == other@),
    {
        let r = self.0 == other.0;
        proof {
            if r {
                assert(self.0@ =~= other.0@);
            } else if self.0@ == other.0@ {
                assert(self.0.eq_spec(&other.0));
                assert(false);
            }
        }
        r
    }

    /// Strict lexicographic comparison of the underlying raw identifiers.
    pub fn lt(&self, other: &AccountIdWrapper) -> (r: bool)
        ensures
            r == lex_lt(self@, other@),
    {
        let a = &self.0;
        let b = &other.0;
        let mut i: usize = 0;
        while i < a.len() && i < b.len()
            invariant
                a@ == self@,
                b@ == other@,
                i <= a.len(),
                i <= b.len(),
                forall|j: int| 0 <= j < i ==> a@[j] == b@[j],
            decreases a.len() - i,
        {
            if a[i] < b[i] {
                proof {
                    lemma_lex_lt_common_prefix(a@, b@, i as int);
                    let sa = a@.subrange(i as int, a@.len() as int);
                    let sb = b@.subrange(i as int, b@.len() as int);
                    assert(sa[0] == a@[i as int] && sb[0] == b@[i as int]);
                    assert(lex_lt(sa, sb));
                }
                return true;
            }
            if a[i] > b[i] {
                proof {
                    lemma_lex_lt_common_prefix(a@, b@, i as int);
                    let sa = a@.subrange(i as int, a@.len() as int);
                    let sb = b@.subrange(i as int, b@.len() as int);
                    assert(sa[0] == a@[i as int] && sb[0] == b@[i as int]);
                    assert(!lex_lt(sa, sb));
                }
                return false;
            }
            i = i + 1;
        }
        proof {
            lemma_lex_lt_common_prefix(a@, b@, i as int);
        }
        a.len() < b.len()
    }
}

} // verus!
