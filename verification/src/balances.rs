//! The balance mapping.
//!
//! Balances are held as a list of address/amount entries kept strictly sorted
//! by address in lexicographic order, which makes the list a mapping with
//! unique keys and gives the balance query a deterministic output order.
//!
//! The mathematical model is a sequence of `(Seq<char>, u128)` pairs together
//! with the spec functions [`balance_of`], [`total_of`], [`credit`], [`put`]
//! and their iterated forms; the executable operations are proved to realize
//! exactly those functions.

use vstd::prelude::*;
use crate::order::{lex_lt, lemma_lex_transitive, lemma_lex_trichotomy, str_lt};

verus! {

/// One entry of the balance mapping: an address and the amount it holds.
#[derive(Debug)]
pub struct BalanceEntry {
    pub address: String,
    pub balance: u128,
}

impl View for BalanceEntry {
    type V = (Seq<char>, u128);

    open spec fn view(&self) -> (Seq<char>, u128) {
        (self.address@, self.balance)
    }
}

impl Clone for BalanceEntry {
    fn clone(&self) -> (res: Self)
        ensures
            res == *self,
    {
        BalanceEntry { address: self.address.clone(), balance: self.balance }
    }
}

/// The model of an entry list: each entry as an address/amount pair.
pub open spec fn entries_view(s: Seq<BalanceEntry>) -> Seq<(Seq<char>, u128)> {
    s.map_values(|e: BalanceEntry| e@)
}

/// The entries are strictly ascending by address, hence the addresses are
/// pairwise distinct.
pub open spec fn sorted_by_address(s: Seq<(Seq<char>, u128)>) -> bool {
    forall|i: int, j: int| 0 <= i < j < s.len() ==> #[trigger] lex_lt(s[i].0, s[j].0)
}

/// The balance of `k`: the amount of the first entry whose address is `k`, or
/// zero when no entry has address `k`.
pub open spec fn balance_of(s: Seq<(Seq<char>, u128)>, k: Seq<char>) -> u128
    decreases s.len(),
{
    if s.len() == 0 {
        0
    } else if s[0].0 == k {
        s[0].1
    } else {
        balance_of(s.drop_first(), k)
    }
}

/// The sum of all amounts held in the mapping.
pub open spec fn total_of(s: Seq<(Seq<char>, u128)>) -> int
    decreases s.len(),
{
    if s.len() == 0 {
        0
    } else {
        s[0].1 + total_of(s.drop_first())
    }
}

/// Adds `a` to the balance of `k`, inserting a fresh entry in sort position
/// when `k` is absent.
pub open spec fn credit(s: Seq<(Seq<char>, u128)>, k: Seq<char>, a: u128) -> Seq<
    (Seq<char>, u128),
>
    decreases s.len(),
{
    if s.len() == 0 {
        seq![(k, a)]
    } else if s[0].0 == k {
        seq![(s[0].0, (s[0].1 + a) as u128)] + s.drop_first()
    } else if lex_lt(k, s[0].0) {
        seq![(k, a)] + s
    } else {
        seq![s[0]] + credit(s.drop_first(), k, a)
    }
}

/// Sets the balance of `k` to `v`, inserting a fresh entry in sort position
/// when `k` is absent.
pub open spec fn put(s: Seq<(Seq<char>, u128)>, k: Seq<char>, v: u128) -> Seq<(Seq<char>, u128)>
    decreases s.len(),
{
    if s.len() == 0 {
        seq![(k, v)]
    } else if s[0].0 == k {
        seq![(s[0].0, v)] + s.drop_first()
    } else if lex_lt(k, s[0].0) {
        seq![(k, v)] + s
    } else {
        seq![s[0]] + put(s.drop_first(), k, v)
    }
}

/// Credits each recipient with the matching amount, in input order.
pub open spec fn credit_all(
    s: Seq<(Seq<char>, u128)>,
    rs: Seq<Seq<char>>,
    amts: Seq<u128>,
) -> Seq<(Seq<char>, u128)>
    decreases rs.len(),
{
    if rs.len() == 0 || amts.len() == 0 {
        s
    } else {
        credit_all(credit(s, rs[0], amts[0]), rs.drop_first(), amts.drop_first())
    }
}

/// Sets the balance of each listed pair in input order, so a repeated address
/// keeps the last amount written.
pub open spec fn put_all(s: Seq<(Seq<char>, u128)>, entries: Seq<(Seq<char>, u128)>) -> Seq<
    (Seq<char>, u128),
>
    decreases entries.len(),
{
    if entries.len() == 0 {
        s
    } else {
        put_all(put(s, entries[0].0, entries[0].1), entries.drop_first())
    }
}

/// The sum of a sequence of amounts.
pub open spec fn sum_of(s: Seq<u128>) -> int
    decreases s.len(),
{
    if s.len() == 0 {
        0
    } else {
        s[0] + sum_of(s.drop_first())
    }
}

/// The total of a mapping is never negative.
pub proof fn lemma_total_of_nonneg(s: Seq<(Seq<char>, u128)>)
    ensures
        total_of(s) >= 0,
    decreases s.len(),
{
    if s.len() > 0 {
        lemma_total_of_nonneg(s.drop_first());
    }
}

/// A sum of amounts is never negative.
pub proof fn lemma_sum_of_nonneg(s: Seq<u128>)
    ensures
        sum_of(s) >= 0,
    decreases s.len(),
{
    if s.len() > 0 {
        lemma_sum_of_nonneg(s.drop_first());
    }
}

/// No single balance exceeds the total of the mapping.
pub proof fn lemma_balance_le_total(s: Seq<(Seq<char>, u128)>, k: Seq<char>)
    ensures
        balance_of(s, k) <= total_of(s),
        total_of(s) >= 0,
    decreases s.len(),
{
    lemma_total_of_nonneg(s);
    if s.len() == 0 {
    } else if s[0].0 == k {
        lemma_total_of_nonneg(s.drop_first());
    } else {
        lemma_balance_le_total(s.drop_first(), k);
    }
}

/// The balance of `k` is the amount of the first entry carrying `k`.
pub proof fn lemma_balance_of_first_match(s: Seq<(Seq<char>, u128)>, k: Seq<char>, i: int)
    requires
        0 <= i < s.len(),
        s[i].0 == k,
        forall|j: int| 0 <= j < i ==> (#[trigger] s[j]).0 != k,
    ensures
        balance_of(s, k) == s[i].1,
    decreases i,
{
    if i > 0 {
        assert forall|j: int| 0 <= j < i - 1 implies (#[trigger] s.drop_first()[j]).0 != k by {
            assert(s.drop_first()[j] == s[j + 1]);
        }
        assert(s.drop_first()[i - 1] == s[i]);
        lemma_balance_of_first_match(s.drop_first(), k, i - 1);
    }
}

/// When no entry carries `k`, the balance of `k` is zero.
pub proof fn lemma_balance_of_all_miss(s: Seq<(Seq<char>, u128)>, k: Seq<char>)
    requires
        forall|j: int| 0 <= j < s.len() ==> (#[trigger] s[j]).0 != k,
    ensures
        balance_of(s, k) == 0,
    decreases s.len(),
{
    if s.len() > 0 {
        assert forall|j: int| 0 <= j < s.len() - 1 implies (#[trigger] s.drop_first()[j]).0 != k by {
            assert(s.drop_first()[j] == s[j + 1]);
        }
        lemma_balance_of_all_miss(s.drop_first(), k);
    }
}

/// Crediting a key that sits at index `i`, everything before it being smaller,
/// updates exactly that entry.
pub proof fn lemma_credit_found(s: Seq<(Seq<char>, u128)>, k: Seq<char>, a: u128, i: int)
    requires
        0 <= i < s.len(),
        s[i].0 == k,
        forall|j: int| 0 <= j < i ==> lex_lt((#[trigger] s[j]).0, k),
    ensures
        credit(s, k, a) == s.update(i, (s[i].0, (s[i].1 + a) as u128)),
    decreases i,
{
    if i == 0 {
        assert(credit(s, k, a) =~= s.update(0, (s[0].0, (s[0].1 + a) as u128)));
    } else {
        lemma_lex_trichotomy(s[0].0, k);
        assert forall|j: int| 0 <= j < i - 1 implies lex_lt((#[trigger] s.drop_first()[j]).0, k) by {
            assert(s.drop_first()[j] == s[j + 1]);
        }
        assert(s.drop_first()[i - 1] == s[i]);
        lemma_credit_found(s.drop_first(), k, a, i - 1);
        assert(credit(s, k, a) =~= s.update(i, (s[i].0, (s[i].1 + a) as u128)));
    }
}

/// Crediting a key that is absent, all entries before index `i` being smaller
/// and all from `i` on being larger, inserts a fresh entry at `i`.
pub proof fn lemma_credit_absent(s: Seq<(Seq<char>, u128)>, k: Seq<char>, a: u128, i: int)
    requires
        0 <= i <= s.len(),
        forall|j: int| 0 <= j < i ==> lex_lt((#[trigger] s[j]).0, k),
        forall|j: int| i <= j < s.len() ==> lex_lt(k, (#[trigger] s[j]).0),
    ensures
        credit(s, k, a) == s.insert(i, (k, a)),
    decreases i,
{
    if i == 0 {
        if s.len() == 0 {
            assert(credit(s, k, a) =~= s.insert(0, (k, a)));
        } else {
            lemma_lex_trichotomy(k, s[0].0);
            assert(credit(s, k, a) =~= s.insert(0, (k, a)));
        }
    } else {
        lemma_lex_trichotomy(s[0].0, k);
        assert forall|j: int| 0 <= j < i - 1 implies lex_lt((#[trigger] s.drop_first()[j]).0, k) by {
            assert(s.drop_first()[j] == s[j + 1]);
        }
        assert forall|j: int| i - 1 <= j < s.drop_first().len() implies lex_lt(
            k,
            (#[trigger] s.drop_first()[j]).0,
        ) by {
            assert(s.drop_first()[j] == s[j + 1]);
        }
        lemma_credit_absent(s.drop_first(), k, a, i - 1);
        assert(credit(s, k, a) =~= s.insert(i, (k, a)));
    }
}

proof fn lemma_credit_key_lower_bound(s: Seq<(Seq<char>, u128)>, k: Seq<char>, a: u128, x: Seq<char>)
    requires
        forall|j: int| 0 <= j < s.len() ==> lex_lt(x, (#[trigger] s[j]).0),
        lex_lt(x, k),
    ensures
        forall|j: int|
            0 <= j < credit(s, k, a).len() ==> lex_lt(x, (#[trigger] credit(s, k, a)[j]).0),
    decreases s.len(),
{
    if s.len() == 0 {
    } else if s[0].0 == k {
    } else if lex_lt(k, s[0].0) {
    } else {
        assert forall|j: int| 0 <= j < s.drop_first().len() implies lex_lt(
            x,
            (#[trigger] s.drop_first()[j]).0,
        ) by {
            assert(s.drop_first()[j] == s[j + 1]);
        }
        lemma_credit_key_lower_bound(s.drop_first(), k, a, x);
        assert forall|j: int| 0 <= j < credit(s, k, a).len() implies lex_lt(
            x,
            (#[trigger] credit(s, k, a)[j]).0,
        ) by {
            if j > 0 {
                assert(credit(s, k, a)[j] == credit(s.drop_first(), k, a)[j - 1]);
            }
        }
    }
}

/// Crediting keeps the entries strictly sorted by address.
pub proof fn lemma_credit_sorted(s: Seq<(Seq<char>, u128)>, k: Seq<char>, a: u128)
    requires
        sorted_by_address(s),
    ensures
        sorted_by_address(credit(s, k, a)),
    decreases s.len(),
{
    if s.len() == 0 {
    } else if s[0].0 == k {
        let r = credit(s, k, a);
        assert forall|i: int, j: int| 0 <= i < j < r.len() implies #[trigger] lex_lt(
            r[i].0,
            r[j].0,
        ) by {
            assert(r[j].0 == s[j].0);
            assert(r[i].0 == s[i].0);
            assert(lex_lt(s[i].0, s[j].0));
        }
    } else if lex_lt(k, s[0].0) {
        let r = credit(s, k, a);
        assert forall|i: int, j: int| 0 <= i < j < r.len() implies #[trigger] lex_lt(
            r[i].0,
            r[j].0,
        ) by {
            if i == 0 {
                if j == 1 {
                    assert(r[j].0 == s[0].0);
                } else {
                    assert(r[j].0 == s[j - 1].0);
                    assert(lex_lt(s[0].0, s[j - 1].0));
                    lemma_lex_transitive(k, s[0].0, s[j - 1].0);
                }
            } else {
                assert(r[i].0 == s[i - 1].0);
                assert(r[j].0 == s[j - 1].0);
                assert(lex_lt(s[i - 1].0, s[j - 1].0));
            }
        }
    } else {
        lemma_lex_trichotomy(s[0].0, k);
        assert forall|i: int, j: int| 0 <= i < j < s.drop_first().len() implies #[trigger] lex_lt(
            s.drop_first()[i].0,
            s.drop_first()[j].0,
        ) by {
            assert(s.drop_first()[i] == s[i + 1]);
            assert(s.drop_first()[j] == s[j + 1]);
            assert(lex_lt(s[i + 1].0, s[j + 1].0));
        }
        lemma_credit_sorted(s.drop_first(), k, a);
        assert forall|j: int| 0 <= j < s.drop_first().len() implies lex_lt(
            s[0].0,
            (#[trigger] s.drop_first()[j]).0,
        ) by {
            assert(s.drop_first()[j] == s[j + 1]);
            assert(lex_lt(s[0].0, s[j + 1].0));
        }
        lemma_credit_key_lower_bound(s.drop_first(), k, a, s[0].0);
        let r = credit(s, k, a);
        let rr = credit(s.drop_first(), k, a);
        assert forall|i: int, j: int| 0 <= i < j < r.len() implies #[trigger] lex_lt(
            r[i].0,
            r[j].0,
        ) by {
            assert(r[j] == rr[j - 1]);
            if i == 0 {
                assert(lex_lt(s[0].0, rr[j - 1].0));
            } else {
                assert(r[i] == rr[i - 1]);
            }
        }
    }
}

/// Crediting raises the total by exactly the credited amount.
pub proof fn lemma_credit_total(s: Seq<(Seq<char>, u128)>, k: Seq<char>, a: u128)
    requires
        balance_of(s, k) + a <= u128::MAX,
    ensures
        total_of(credit(s, k, a)) == total_of(s) + a,
    decreases s.len(),
{
    let r = credit(s, k, a);
    if s.len() == 0 {
        assert(r.drop_first() =~= Seq::<(Seq<char>, u128)>::empty());
        assert(total_of(r) == a + total_of(r.drop_first()));
    } else if s[0].0 == k {
        assert(r.drop_first() =~= s.drop_first());
        assert(total_of(r) == r[0].1 + total_of(r.drop_first()));
    } else if lex_lt(k, s[0].0) {
        assert(r.drop_first() =~= s);
        assert(total_of(r) == a + total_of(s));
    } else {
        lemma_credit_total(s.drop_first(), k, a);
        assert(r.drop_first() =~= credit(s.drop_first(), k, a));
        assert(total_of(r) == s[0].1 + total_of(r.drop_first()));
    }
}

/// Crediting a whole recipient list keeps the entries sorted and raises the
/// total by exactly the sum of the amounts.
pub proof fn lemma_credit_all_sorted_total(
    s: Seq<(Seq<char>, u128)>,
    rs: Seq<Seq<char>>,
    amts: Seq<u128>,
)
    requires
        sorted_by_address(s),
        rs.len() == amts.len(),
        total_of(s) + sum_of(amts) <= u128::MAX,
    ensures
        sorted_by_address(credit_all(s, rs, amts)),
        total_of(credit_all(s, rs, amts)) == total_of(s) + sum_of(amts),
    decreases rs.len(),
{
    if rs.len() > 0 {
        lemma_balance_le_total(s, rs[0]);
        lemma_sum_of_nonneg(amts.drop_first());
        lemma_credit_total(s, rs[0], amts[0]);
        lemma_credit_sorted(s, rs[0], amts[0]);
        lemma_credit_all_sorted_total(
            credit(s, rs[0], amts[0]),
            rs.drop_first(),
            amts.drop_first(),
        );
    }
}

/// Splitting a sequence of amounts anywhere splits its sum.
pub proof fn lemma_sum_take_skip(s: Seq<u128>, i: int)
    requires
        0 <= i <= s.len(),
    ensures
        sum_of(s) == sum_of(s.take(i)) + sum_of(s.skip(i)),
    decreases i,
{
    if i == 0 {
        assert(s.take(0) =~= Seq::<u128>::empty());
        assert(s.skip(0) =~= s);
    } else {
        lemma_sum_take_skip(s.drop_first(), i - 1);
        assert(s.take(i).drop_first() =~= s.drop_first().take(i - 1));
        assert(s.skip(i) =~= s.drop_first().skip(i - 1));
        assert(sum_of(s.take(i)) == s[0] + sum_of(s.drop_first().take(i - 1)));
    }
}

/// Taking one more amount adds exactly that amount to the partial sum.
pub proof fn lemma_sum_take_succ(s: Seq<u128>, i: int)
    requires
        0 <= i < s.len(),
    ensures
        sum_of(s.take(i + 1)) == sum_of(s.take(i)) + s[i],
    decreases i,
{
    if i == 0 {
        assert(s.take(0) =~= Seq::<u128>::empty());
        assert(s.take(1).drop_first() =~= Seq::<u128>::empty());
        assert(s.take(1)[0] == s[0]);
    } else {
        lemma_sum_take_succ(s.drop_first(), i - 1);
        assert(s.take(i + 1).drop_first() =~= s.drop_first().take(i));
        assert(s.take(i).drop_first() =~= s.drop_first().take(i - 1));
        assert(sum_of(s.take(i + 1)) == s[0] + sum_of(s.drop_first().take(i)));
        assert(sum_of(s.take(i)) == s[0] + sum_of(s.drop_first().take(i - 1)));
        assert(s.drop_first()[i - 1] == s[i]);
    }
}

proof fn lemma_put_key_lower_bound(s: Seq<(Seq<char>, u128)>, k: Seq<char>, v: u128, x: Seq<char>)
    requires
        forall|j: int| 0 <= j < s.len() ==> lex_lt(x, (#[trigger] s[j]).0),
        lex_lt(x, k),
    ensures
        forall|j: int| 0 <= j < put(s, k, v).len() ==> lex_lt(x, (#[trigger] put(s, k, v)[j]).0),
    decreases s.len(),
{
    if s.len() == 0 {
    } else if s[0].0 == k {
    } else if lex_lt(k, s[0].0) {
    } else {
        assert forall|j: int| 0 <= j < s.drop_first().len() implies lex_lt(
            x,
            (#[trigger] s.drop_first()[j]).0,
        ) by {
            assert(s.drop_first()[j] == s[j + 1]);
        }
        lemma_put_key_lower_bound(s.drop_first(), k, v, x);
        assert forall|j: int| 0 <= j < put(s, k, v).len() implies lex_lt(
            x,
            (#[trigger] put(s, k, v)[j]).0,
        ) by {
            if j > 0 {
                assert(put(s, k, v)[j] == put(s.drop_first(), k, v)[j - 1]);
            }
        }
    }
}

/// Setting a balance keeps the entries strictly sorted by address.
pub proof fn lemma_put_sorted(s: Seq<(Seq<char>, u128)>, k: Seq<char>, v: u128)
    requires
        sorted_by_address(s),
    ensures
        sorted_by_address(put(s, k, v)),
    decreases s.len(),
{
    if s.len() == 0 {
    } else if s[0].0 == k {
        let r = put(s, k, v);
        assert forall|i: int, j: int| 0 <= i < j < r.len() implies #[trigger] lex_lt(
            r[i].0,
            r[j].0,
        ) by {
            assert(r[j].0 == s[j].0);
            assert(r[i].0 == s[i].0);
            assert(lex_lt(s[i].0, s[j].0));
        }
    } else if lex_lt(k, s[0].0) {
        let r = put(s, k, v);
        assert forall|i: int, j: int| 0 <= i < j < r.len() implies #[trigger] lex_lt(
            r[i].0,
            r[j].0,
        ) by {
            if i == 0 {
                if j == 1 {
                    assert(r[j].0 == s[0].0);
                } else {
                    assert(r[j].0 == s[j - 1].0);
                    assert(lex_lt(s[0].0, s[j - 1].0));
                    lemma_lex_transitive(k, s[0].0, s[j - 1].0);
                }
            } else {
                assert(r[i].0 == s[i - 1].0);
                assert(r[j].0 == s[j - 1].0);
                assert(lex_lt(s[i - 1].0, s[j - 1].0));
            }
        }
    } else {
        lemma_lex_trichotomy(s[0].0, k);
        assert forall|i: int, j: int| 0 <= i < j < s.drop_first().len() implies #[trigger] lex_lt(
            s.drop_first()[i].0,
            s.drop_first()[j].0,
        ) by {
            assert(s.drop_first()[i] == s[i + 1]);
            assert(s.drop_first()[j] == s[j + 1]);
            assert(lex_lt(s[i + 1].0, s[j + 1].0));
        }
        lemma_put_sorted(s.drop_first(), k, v);
        assert forall|j: int| 0 <= j < s.drop_first().len() implies lex_lt(
            s[0].0,
            (#[trigger] s.drop_first()[j]).0,
        ) by {
            assert(s.drop_first()[j] == s[j + 1]);
            assert(lex_lt(s[0].0, s[j + 1].0));
        }
        lemma_put_key_lower_bound(s.drop_first(), k, v, s[0].0);
        let r = put(s, k, v);
        let rr = put(s.drop_first(), k, v);
        assert forall|i: int, j: int| 0 <= i < j < r.len() implies #[trigger] lex_lt(
            r[i].0,
            r[j].0,
        ) by {
            assert(r[j] == rr[j - 1]);
            if i == 0 {
                assert(lex_lt(s[0].0, rr[j - 1].0));
            } else {
                assert(r[i] == rr[i - 1]);
            }
        }
    }
}

/// Setting a key that sits at index `i`, everything before it being smaller,
/// replaces exactly that entry.
pub proof fn lemma_put_found(s: Seq<(Seq<char>, u128)>, k: Seq<char>, v: u128, i: int)
    requires
        0 <= i < s.len(),
        s[i].0 == k,
        forall|j: int| 0 <= j < i ==> lex_lt((#[trigger] s[j]).0, k),
    ensures
        put(s, k, v) == s.update(i, (s[i].0, v)),
    decreases i,
{
    if i == 0 {
        assert(put(s, k, v) =~= s.update(0, (s[0].0, v)));
    } else {
        lemma_lex_trichotomy(s[0].0, k);
        assert forall|j: int| 0 <= j < i - 1 implies lex_lt((#[trigger] s.drop_first()[j]).0, k) by {
            assert(s.drop_first()[j] == s[j + 1]);
        }
        assert(s.drop_first()[i - 1] == s[i]);
        lemma_put_found(s.drop_first(), k, v, i - 1);
        assert(put(s, k, v) =~= s.update(i, (s[i].0, v)));
    }
}

/// Setting a key that is absent, all entries before index `i` being smaller
/// and all from `i` on being larger, inserts a fresh entry at `i`.
pub proof fn lemma_put_absent(s: Seq<(Seq<char>, u128)>, k: Seq<char>, v: u128, i: int)
    requires
        0 <= i <= s.len(),
        forall|j: int| 0 <= j < i ==> lex_lt((#[trigger] s[j]).0, k),
        forall|j: int| i <= j < s.len() ==> lex_lt(k, (#[trigger] s[j]).0),
    ensures
        put(s, k, v) == s.insert(i, (k, v)),
    decreases i,
{
    if i == 0 {
        if s.len() == 0 {
            assert(put(s, k, v) =~= s.insert(0, (k, v)));
        } else {
            lemma_lex_trichotomy(k, s[0].0);
            assert(put(s, k, v) =~= s.insert(0, (k, v)));
        }
    } else {
        lemma_lex_trichotomy(s[0].0, k);
        assert forall|j: int| 0 <= j < i - 1 implies lex_lt((#[trigger] s.drop_first()[j]).0, k) by {
            assert(s.drop_first()[j] == s[j + 1]);
        }
        assert forall|j: int| i - 1 <= j < s.drop_first().len() implies lex_lt(
            k,
            (#[trigger] s.drop_first()[j]).0,
        ) by {
            assert(s.drop_first()[j] == s[j + 1]);
        }
        lemma_put_absent(s.drop_first(), k, v, i - 1);
        assert(put(s, k, v) =~= s.insert(i, (k, v)));
    }
}

/// Finds the first index whose address is not smaller than `key`: the sort
/// position of `key` in the entry list.
pub fn lower_bound(v: &Vec<BalanceEntry>, key: &String) -> (i: usize)
    ensures
        i <= v.len(),
        forall|j: int| 0 <= j < i ==> lex_lt((#[trigger] v@[j]).address@, key@),
        i < v.len() ==> !lex_lt(v@[i as int].address@, key@),
{
    let mut i: usize = 0;
    while i < v.len() && str_lt(v[i].address.as_str(), key.as_str())
        invariant
            i <= v.len(),
            forall|j: int| 0 <= j < i ==> lex_lt((#[trigger] v@[j]).address@, key@),
        decreases v.len() - i,
    {
        i = i + 1;
    }
    i
}

/// Adds `amount` to the balance of `address`, inserting the entry at its sort
/// position when the address is absent.
pub fn credit_entry(v: &mut Vec<BalanceEntry>, address: String, amount: u128)
    requires
        sorted_by_address(entries_view(old(v)@)),
        balance_of(entries_view(old(v)@), address@) + amount <= u128::MAX,
    ensures
        entries_view(final(v)@) == credit(entries_view(old(v)@), address@, amount),
{
    let ghost s0 = entries_view(v@);
    let i = lower_bound(v, &address);
    if i < v.len() && v[i].address == address {
        proof {
            assert forall|j: int| 0 <= j < i implies (#[trigger] s0[j]).0 != address@ by {
                lemma_lex_trichotomy(s0[j].0, address@);
            }
            lemma_balance_of_first_match(s0, address@, i as int);
            lemma_credit_found(s0, address@, amount, i as int);
        }
        let bal = v[i].balance;
        v.set(i, BalanceEntry { address, balance: bal + amount });
        proof {
            assert(entries_view(v@) =~= credit(s0, s0[i as int].0, amount));
        }
    } else {
        proof {
            assert forall|j: int| i <= j < s0.len() implies lex_lt(
                address@,
                (#[trigger] s0[j]).0,
            ) by {
                lemma_lex_trichotomy(s0[i as int].0, address@);
                if j > i {
                    assert(lex_lt(s0[i as int].0, s0[j].0));
                    lemma_lex_transitive(address@, s0[i as int].0, s0[j].0);
                }
            }
            lemma_credit_absent(s0, address@, amount, i as int);
        }
        v.insert(i, BalanceEntry { address, balance: amount });
        proof {
            assert(entries_view(v@) =~= s0.insert(i as int, (v@[i as int].address@, amount)));
        }
    }
}

/// Sets the balance of `address` to `value`, inserting the entry at its sort
/// position when the address is absent.
pub fn put_entry(v: &mut Vec<BalanceEntry>, address: String, value: u128)
    requires
        sorted_by_address(entries_view(old(v)@)),
    ensures
        entries_view(final(v)@) == put(entries_view(old(v)@), address@, value),
{
    let ghost s0 = entries_view(v@);
    let i = lower_bound(v, &address);
    if i < v.len() && v[i].address == address {
        proof {
            lemma_put_found(s0, address@, value, i as int);
        }
        v.set(i, BalanceEntry { address, balance: value });
        proof {
            assert(entries_view(v@) =~= put(s0, s0[i as int].0, value));
        }
    } else {
        proof {
            assert forall|j: int| i <= j < s0.len() implies lex_lt(
                address@,
                (#[trigger] s0[j]).0,
            ) by {
                lemma_lex_trichotomy(s0[i as int].0, address@);
                if j > i {
                    assert(lex_lt(s0[i as int].0, s0[j].0));
                    lemma_lex_transitive(address@, s0[i as int].0, s0[j].0);
                }
            }
            lemma_put_absent(s0, address@, value, i as int);
        }
        v.insert(i, BalanceEntry { address, balance: value });
        proof {
            assert(entries_view(v@) =~= s0.insert(i as int, (v@[i as int].address@, value)));
        }
    }
}

} // verus!
