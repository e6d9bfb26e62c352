//! Lexicographic order on addresses.
//!
//! Balances are kept as a list sorted by address, so the ledger needs a total
//! order on the character sequences that addresses view to.  The order is the
//! usual lexicographic one, comparing characters by their scalar values.

use vstd::prelude::*;

verus! {

/// Lexicographic "strictly less than" on character sequences, comparing from
/// index `i` onward under the assumption that the first `i` characters agree.
pub open spec fn lex_lt_from(a: Seq<char>, b: Seq<char>, i: int) -> bool
    decreases b.len() - i,
{
    if i < 0 {
        false
    } else if i >= b.len() {
        false
    } else if i >= a.len() {
        true
    } else if (a[i] as u32) < (b[i] as u32) {
        true
    } else if a[i] == b[i] {
        lex_lt_from(a, b, i + 1)
    } else {
        false
    }
}

/// Lexicographic "strictly less than" on character sequences.
pub open spec fn lex_lt(a: Seq<char>, b: Seq<char>) -> bool {
    lex_lt_from(a, b, 0)
}

proof fn lemma_lex_lt_from_trichotomy(a: Seq<char>, b: Seq<char>, i: int)
    requires
        0 <= i <= a.len(),
        i <= b.len(),
    ensures
        lex_lt_from(a, b, i) || lex_lt_from(b, a, i) || a.skip(i) =~= b.skip(i),
        lex_lt_from(a, b, i) ==> !lex_lt_from(b, a, i),
        lex_lt_from(a, b, i) ==> !(a.skip(i) =~= b.skip(i)),
    decreases a.len() + b.len() - 2 * i,
{
    if i < a.len() && i < b.len() && a[i] == b[i] {
        lemma_lex_lt_from_trichotomy(a, b, i + 1);
        if a.skip(i + 1) =~= b.skip(i + 1) {
            assert forall|k: int| 0 <= k < a.skip(i).len() implies a.skip(i)[k] == b.skip(
                i,
            )[k] by {
                if k == 0 {
                    assert(a.skip(i)[0] == a[i]);
                    assert(b.skip(i)[0] == b[i]);
                } else {
                    assert(a.skip(i)[k] == a[i + k]);
                    assert(a.skip(i + 1)[k - 1] == a[i + k]);
                    assert(b.skip(i)[k] == b[i + k]);
                    assert(b.skip(i + 1)[k - 1] == b[i + k]);
                }
            }
            assert(a.skip(i) =~= b.skip(i));
        }
        if a.skip(i) =~= b.skip(i) {
            assert forall|k: int| 0 <= k < a.skip(i + 1).len() implies #[trigger] a.skip(i + 1)[k]
                == b.skip(i + 1)[k] by {
                assert(a.skip(i + 1)[k] == a[i + 1 + k]);
                assert(a.skip(i)[k + 1] == a[i + 1 + k]);
                assert(b.skip(i + 1)[k] == b[i + 1 + k]);
                assert(b.skip(i)[k + 1] == b[i + 1 + k]);
            }
            assert(a.skip(i + 1) =~= b.skip(i + 1));
        }
    } else if i < a.len() && i < b.len() {
        vstd::utf8::char_u32_cast(a[i], a[i] as u32);
        vstd::utf8::char_u32_cast(b[i], b[i] as u32);
        assert(a.skip(i)[0] == a[i]);
        assert(b.skip(i)[0] == b[i]);
    } else {
        assert(a.skip(i).len() == a.len() - i);
        assert(b.skip(i).len() == b.len() - i);
        if i >= a.len() && i >= b.len() {
            assert(a.skip(i) =~= b.skip(i));
        }
    }
}

/// Of two character sequences, exactly one of the following holds: the first
/// is lexicographically smaller, the second is, or they are equal.
pub proof fn lemma_lex_trichotomy(a: Seq<char>, b: Seq<char>)
    ensures
        lex_lt(a, b) || lex_lt(b, a) || a == b,
        lex_lt(a, b) ==> !lex_lt(b, a),
        lex_lt(a, b) ==> a != b,
        lex_lt(b, a) ==> a != b,
{
    lemma_lex_lt_from_trichotomy(a, b, 0);
    lemma_lex_lt_from_trichotomy(b, a, 0);
    assert(a.skip(0) =~= a);
    assert(b.skip(0) =~= b);
}

proof fn lemma_lex_lt_from_transitive(a: Seq<char>, b: Seq<char>, c: Seq<char>, i: int)
    requires
        0 <= i,
        lex_lt_from(a, b, i),
        lex_lt_from(b, c, i),
    ensures
        lex_lt_from(a, c, i),
    decreases b.len() - i,
{
    if i < a.len() && i < b.len() && i < c.len() && a[i] == b[i] && b[i] == c[i] {
        lemma_lex_lt_from_transitive(a, b, c, i + 1);
    }
}

/// The lexicographic order is transitive.
pub proof fn lemma_lex_transitive(a: Seq<char>, b: Seq<char>, c: Seq<char>)
    requires
        lex_lt(a, b),
        lex_lt(b, c),
    ensures
        lex_lt(a, c),
{
    lemma_lex_lt_from_transitive(a, b, c, 0);
}

/// Compares two string slices in the lexicographic order of their character
/// sequences.
pub fn str_lt(a: &str, b: &str) -> (r: bool)
    ensures
        r == lex_lt(a@, b@),
{
    let la = a.unicode_len();
    let lb = b.unicode_len();
    let mut i: usize = 0;
    while i < la && i < lb
        invariant
            i <= la,
            i <= lb,
            la == a@.len(),
            lb == b@.len(),
            lex_lt(a@, b@) == lex_lt_from(a@, b@, i as int),
        decreases la - i,
    {
        let ca = a.get_char(i);
        let cb = b.get_char(i);
        if ca == cb {
            i = i + 1;
        } else if (ca as u32) < (cb as u32) {
            return true;
        } else {
            return false;
        }
    }
    i < lb
}

} // verus!
