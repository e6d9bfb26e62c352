//! The persisted ledger state.

use vstd::prelude::*;
use crate::balances::{
    entries_view, lemma_put_sorted, put_all, put_entry, sorted_by_address, BalanceEntry,
};

verus! {

/// The mathematical value of a ledger state: the admin identity and the
/// balance mapping, as plain sequences.
pub ghost struct StateV {
    pub admin: Seq<char>,
    pub balances: Seq<(Seq<char>, u128)>,
}

/// The ledger state: the identity authorized to distribute funds and rotate
/// itself, and the balance mapping, kept strictly sorted by address.
#[derive(Debug)]
pub struct State {
    pub admin: String,
    pub balances: Vec<BalanceEntry>,
}

impl View for State {
    type V = StateV;

    open spec fn view(&self) -> StateV {
        StateV { admin: self.admin@, balances: entries_view(self.balances@) }
    }
}

fn clone_entries(v: &Vec<BalanceEntry>) -> (r: Vec<BalanceEntry>)
    ensures
        r@ == v@,
{
    let mut r: Vec<BalanceEntry> = Vec::new();
    let mut i: usize = 0;
    while i < v.len()
        invariant
            i <= v.len(),
            r@ == v@.take(i as int),
        decreases v.len() - i,
    {
        r.push(v[i].clone());
        proof {
            assert(r@ =~= v@.take(i as int + 1));
        }
        i = i + 1;
    }
    proof {
        assert(v@.take(v@.len() as int) =~= v@);
    }
    r
}

impl Clone for State {
    fn clone(&self) -> (res: Self)
        ensures
            res@ == self@,
            res.balances@ == self.balances@,
    {
        State { admin: self.admin.clone(), balances: clone_entries(&self.balances) }
    }
}

impl State {
    /// The state's invariant: the balance entries are strictly sorted by
    /// address, so every address occurs at most once.
    pub open spec fn wf(&self) -> bool {
        sorted_by_address(self@.balances)
    }

    /// Builds a state from an admin identity and a list of balance entries.
    /// A repeated address keeps the last amount listed for it.
    pub fn new(admin: String, balances: Vec<BalanceEntry>) -> (s: State)
        ensures
            s@.admin == admin@,
            s@.balances == put_all(Seq::<(Seq<char>, u128)>::empty(), entries_view(balances@)),
            s.wf(),
    {
        let ghost target = put_all(Seq::<(Seq<char>, u128)>::empty(), entries_view(balances@));
        let mut map: Vec<BalanceEntry> = Vec::new();
        let mut i: usize = 0;
        proof {
            assert(entries_view(map@) =~= Seq::<(Seq<char>, u128)>::empty());
            assert(entries_view(balances@).skip(0) =~= entries_view(balances@));
        }
        while i < balances.len()
            invariant
                i <= balances.len(),
                sorted_by_address(entries_view(map@)),
                put_all(entries_view(map@), entries_view(balances@).skip(i as int)) == target,
            decreases balances.len() - i,
        {
            let ghost cur = entries_view(map@);
            let ghost rest = entries_view(balances@).skip(i as int);
            let address = balances[i].address.clone();
            let value = balances[i].balance;
            proof {
                assert(rest[0] == entries_view(balances@)[i as int]);
                assert(rest.drop_first() =~= entries_view(balances@).skip(i as int + 1));
                lemma_put_sorted(cur, address@, value);
            }
            put_entry(&mut map, address, value);
            i = i + 1;
        }
        proof {
            assert(entries_view(balances@).skip(balances.len() as int) =~= Seq::<
                (Seq<char>, u128),
            >::empty());
        }
        State { admin, balances: map }
    }
}

} // verus!
