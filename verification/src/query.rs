//! Relayed queries: single-address balance lookup and the admin identity.

use vstd::prelude::*;
use crate::balances::{balance_of, lemma_balance_of_all_miss, lemma_balance_of_first_match};
use crate::contract::query_balance;
use crate::errors::ContractError;
use crate::msg::pairs_view;
use crate::store::{get_admin, LedgerStore};

verus! {

/// The queries a host can relay to the contract.
pub enum ContractQuery {
    /// The balance of one address (zero when the address holds no entry).
    GetBalance { address: String },
    /// The current admin identity.
    GetAdminAddress,
}

/// The answer to a relayed contract query.
#[derive(Debug)]
pub enum ContractAnswer {
    Balance { amount: u128 },
    AdminAddress { address: String },
}

/// The balance held by `address`: the stored amount, or zero when the address
/// has no entry.  No authorization is required.
pub fn get_balance(store: &LedgerStore, address: &String) -> (r: Result<u128, ContractError>)
    ensures
        match store@ {
            None => r == Err::<u128, ContractError>(ContractError::NotInitialized),
            Some(st) => r == Ok::<u128, ContractError>(balance_of(st.balances, address@)),
        },
{
    let balances = match query_balance(store) {
        Ok(b) => b,
        Err(e) => return Err(e),
    };
    let ghost bal = pairs_view(balances@);
    let mut i: usize = 0;
    while i < balances.len()
        invariant
            i <= balances.len(),
            bal == pairs_view(balances@),
            store@ matches Some(st) && st.balances == bal,
            forall|j: int| 0 <= j < i ==> (#[trigger] bal[j]).0 != address@,
        decreases balances.len() - i,
    {
        proof {
            assert(bal[i as int] == (balances@[i as int].0@, balances@[i as int].1));
        }
        if balances[i].0 == *address {
            proof {
                assert(bal.len() == balances@.len());
                lemma_balance_of_first_match(bal, address@, i as int);
            }
            return Ok(balances[i].1);
        }
        i = i + 1;
    }
    proof {
        lemma_balance_of_all_miss(bal, address@);
    }
    Ok(0)
}

/// Answers one relayed query: a balance lookup or the admin identity.
pub fn handle_query(store: &LedgerStore, request: ContractQuery) -> (r: Result<
    ContractAnswer,
    ContractError,
>)
    ensures
        match store@ {
            None => r == Err::<ContractAnswer, ContractError>(ContractError::NotInitialized),
            Some(st) => match request {
                ContractQuery::GetBalance { address } => r matches Ok(
                    ContractAnswer::Balance { amount },
                ) && amount == balance_of(st.balances, address@),
                ContractQuery::GetAdminAddress => r matches Ok(
                    ContractAnswer::AdminAddress { address },
                ) && address@ == st.admin,
            },
        },
{
    match request {
        ContractQuery::GetBalance { address } => match get_balance(store, &address) {
            Ok(amount) => Ok(ContractAnswer::Balance { amount }),
            Err(e) => Err(e),
        },
        ContractQuery::GetAdminAddress => match get_admin(store) {
            Ok(address) => Ok(ContractAnswer::AdminAddress { address }),
            Err(e) => Err(e),
        },
    }
}

} // verus!
