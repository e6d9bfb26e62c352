//! The ledger store: durable, atomic storage of the ledger state.
//!
//! The store is a dumb persistence layer: it does not enforce invariants
//! itself.  `save` replaces the stored state wholesale and `load` hands back a
//! copy of the last state saved, so saving and then loading yields an
//! identical state.  This store keeps the state in memory; a host-backed
//! store with the same contract persists the bytes instead and maps its write
//! failures to [`ContractError::StorageWriteError`].

use vstd::prelude::*;
use crate::balances::sorted_by_address;
use crate::errors::ContractError;
use crate::state::{State, StateV};

verus! {

/// Owns the persisted ledger state, if any has been saved.
pub struct LedgerStore {
    state: Option<State>,
}

impl View for LedgerStore {
    type V = Option<StateV>;

    closed spec fn view(&self) -> Option<StateV> {
        match self.state {
            Some(s) => Some(s@),
            None => None,
        }
    }
}

impl LedgerStore {
    /// The stored state, if any, satisfies the ledger invariant.
    pub open spec fn wf(&self) -> bool {
        match self@ {
            Some(st) => sorted_by_address(st.balances),
            None => true,
        }
    }

    /// A store in which no state has ever been saved.
    pub fn new() -> (s: Self)
        ensures
            s@ is None,
    {
        LedgerStore { state: None }
    }

    /// Replaces the stored state wholesale.
    pub fn save(&mut self, state: State)
        ensures
            final(self)@ == Some(state@),
    {
        self.state = Some(state);
    }

    /// Loads a copy of the stored state; fails with `NotInitialized` when no
    /// state has ever been saved.
    pub fn load(&self) -> (r: Result<State, ContractError>)
        ensures
            match self@ {
                Some(st) => r matches Ok(s) && s@ == st,
                None => r == Err::<State, ContractError>(ContractError::NotInitialized),
            },
    {
        match &self.state {
            Some(s) => Ok(s.clone()),
            None => Err(ContractError::NotInitialized),
        }
    }
}

/// Reads just the admin identity of the stored state, without copying the
/// balance mapping.
pub fn get_admin(store: &LedgerStore) -> (r: Result<String, ContractError>)
    ensures
        match store@ {
            Some(st) => r matches Ok(a) && a@ == st.admin,
            None => r == Err::<String, ContractError>(ContractError::NotInitialized),
        },
{
    match &store.state {
        Some(s) => Ok(s.admin.clone()),
        None => Err(ContractError::NotInitialized),
    }
}

/// The model of a save: whatever was stored before, the store afterwards
/// holds exactly the state handed to it.
pub open spec fn spec_save(stored: Option<StateV>, st: StateV) -> Option<StateV> {
    Some(st)
}

/// The model of a load: the stored state, or `NotInitialized` when nothing
/// has ever been saved.
pub open spec fn spec_load(stored: Option<StateV>) -> Result<StateV, ContractError> {
    match stored {
        Some(st) => Ok(st),
        None => Err(ContractError::NotInitialized),
    }
}

/// Round trip: saving a state and then loading yields that state identically,
/// with its key set, values and admin field intact.
pub proof fn lemma_save_load_round_trip(stored: Option<StateV>, st: StateV)
    ensures
        spec_load(spec_save(stored, st)) == Ok::<StateV, ContractError>(st),
{
}

} // verus!
