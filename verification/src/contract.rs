//! The command processor of the ledger.
//!
//! Each entry point validates and authorizes one command against the stored
//! ledger state, computes the new state, and saves it in one step.  A rejected
//! command surfaces its error and leaves the stored state exactly as it was.
//!
//! Distribution policy: `DistributeFunds` credits every recipient
//! unconditionally; it does not debit a funding pool, so the total of all
//! balances grows by exactly the sum of the distributed amounts.

use vstd::prelude::*;
use crate::balances::{
    balance_of, credit, credit_all, credit_entry, entries_view, lemma_balance_le_total,
    lemma_credit_all_sorted_total, lemma_credit_sorted, lemma_credit_total, lemma_sum_of_nonneg,
    lemma_sum_take_skip, lemma_sum_take_succ, lemma_total_of_nonneg, put_all, sorted_by_address,
    sum_of, total_of,
};
use crate::errors::ContractError;
use crate::msg::{
    coins_view, pairs_view, strings_view, Coin, HandleMsg, HandleMsgV, InitMsg, QueryAnswer,
    QueryMsg, Response,
};
use crate::state::{State, StateV};
use crate::store::LedgerStore;

verus! {

/// The denomination a deposit must be made in.
pub open spec fn deposit_denom() -> Seq<char> {
    "uscrt"@
}

/// The state a fresh ledger starts in: the creator as admin, the balances
/// taken from the initial entries (a repeated address keeps the last amount
/// listed for it).
pub open spec fn spec_instantiate(initial: Seq<(Seq<char>, u128)>, creator: Seq<char>) -> StateV {
    StateV { admin: creator, balances: put_all(Seq::<(Seq<char>, u128)>::empty(), initial) }
}

/// The amount of the first coin of the given denomination, if any.
pub open spec fn spec_find_denom(funds: Seq<(Seq<char>, u128)>, denom: Seq<char>) -> Option<u128>
    decreases funds.len(),
{
    if funds.len() == 0 {
        None
    } else if funds[0].0 == denom {
        Some(funds[0].1)
    } else {
        spec_find_denom(funds.drop_first(), denom)
    }
}

/// What a deposit yields: a positive amount is credited to the sender, a zero
/// amount is rejected as `InvalidAmount`.
pub open spec fn spec_deposit(st: StateV, sender: Seq<char>, amount: u128) -> Result<
    StateV,
    ContractError,
> {
    if amount == 0 {
        Err(ContractError::InvalidAmount)
    } else {
        Ok(StateV { admin: st.admin, balances: credit(st.balances, sender, amount) })
    }
}

/// What a distribution yields: only the admin may distribute
/// (`Unauthorized` otherwise), the two lists must match in length
/// (`LengthMismatch` otherwise), and then every recipient is credited with
/// the matching amount, in input order, atomically as a whole.
pub open spec fn spec_distribute_funds(
    st: StateV,
    caller: Seq<char>,
    recipients: Seq<Seq<char>>,
    amounts: Seq<u128>,
) -> Result<StateV, ContractError> {
    if caller != st.admin {
        Err(ContractError::Unauthorized)
    } else if recipients.len() != amounts.len() {
        Err(ContractError::LengthMismatch)
    } else {
        Ok(StateV { admin: st.admin, balances: credit_all(st.balances, recipients, amounts) })
    }
}

/// What an admin rotation yields: only the admin may rotate
/// (`Unauthorized` otherwise); the balances are untouched.
pub open spec fn spec_change_admin(st: StateV, caller: Seq<char>, new_admin: Seq<char>) -> Result<
    StateV,
    ContractError,
> {
    if caller != st.admin {
        Err(ContractError::Unauthorized)
    } else {
        Ok(StateV { admin: new_admin, balances: st.balances })
    }
}

/// One mutating invocation against the stored state: the state the command
/// yields, or the error rejecting it (in which case the stored state is kept).
pub open spec fn spec_execute(
    stored: Option<StateV>,
    sender: Seq<char>,
    funds: Seq<(Seq<char>, u128)>,
    msg: HandleMsgV,
) -> Result<StateV, ContractError> {
    match msg {
        HandleMsgV::Deposit => match spec_find_denom(funds, deposit_denom()) {
            None => Err(ContractError::InvalidAmount),
            Some(a) => if a == 0 {
                Err(ContractError::InvalidAmount)
            } else {
                match stored {
                    None => Err(ContractError::NotInitialized),
                    Some(st) => spec_deposit(st, sender, a),
                }
            },
        },
        HandleMsgV::DistributeFunds { recipients, amounts } => match stored {
            None => Err(ContractError::NotInitialized),
            Some(st) => spec_distribute_funds(st, sender, recipients, amounts),
        },
        HandleMsgV::Admin { new_admin } => match stored {
            None => Err(ContractError::NotInitialized),
            Some(st) => spec_change_admin(st, sender, new_admin),
        },
    }
}

/// Builds the initial ledger state, with the creator as admin, and saves it.
pub fn instantiate(store: &mut LedgerStore, sender: String, msg: InitMsg) -> (r: Result<
    Response,
    ContractError,
>)
    ensures
        r matches Ok(resp) && resp.messages@.len() == 0,
        final(store)@ == Some(spec_instantiate(entries_view(msg.initial_balances@), sender@)),
        final(store).wf(),
{
    let state = State::new(sender, msg.initial_balances);
    store.save(state);
    Ok(Response::default())
}

/// The amount of the first coin of the given denomination, if any.
pub fn find_denom(funds: &Vec<Coin>, denom: &String) -> (r: Option<u128>)
    ensures
        r == spec_find_denom(coins_view(funds@), denom@),
{
    let ghost all = coins_view(funds@);
    proof {
        assert(all.skip(0) =~= all);
    }
    let mut i: usize = 0;
    while i < funds.len()
        invariant
            i <= funds.len(),
            all == coins_view(funds@),
            spec_find_denom(all, denom@) == spec_find_denom(all.skip(i as int), denom@),
        decreases funds.len() - i,
    {
        proof {
            assert(all.skip(i as int)[0] == all[i as int]);
            assert(all.skip(i as int).drop_first() =~= all.skip(i as int + 1));
        }
        if funds[i].denom == *denom {
            return Some(funds[i].amount);
        }
        i = i + 1;
    }
    proof {
        assert(all.skip(funds@.len() as int) =~= Seq::<(Seq<char>, u128)>::empty());
    }
    None
}

/// Credits the sender with the attached funds of the recognized denomination.
/// Rejected with `InvalidAmount` when no such funds are attached or the
/// attached amount is zero; the host has already validated the transfer
/// itself, so a positive reported amount is always credited.
pub fn deposit(store: &mut LedgerStore, sender: String, funds: &Vec<Coin>) -> (r: Result<
    Response,
    ContractError,
>)
    requires
        old(store).wf(),
        old(store)@ matches Some(st) && spec_find_denom(coins_view(funds@), deposit_denom())
            matches Some(a) ==> balance_of(st.balances, sender@) + a <= u128::MAX,
    ensures
        final(store).wf(),
        match spec_execute(old(store)@, sender@, coins_view(funds@), HandleMsgV::Deposit) {
            Ok(st2) => r matches Ok(resp) && resp.messages@.len() == 0 && final(store)@ == Some(
                st2,
            ),
            Err(e) => r == Err::<Response, ContractError>(e) && final(store)@ == old(store)@,
        },
{
    let denom = "uscrt".to_owned();
    let sent = find_denom(funds, &denom);
    match sent {
        None => Err(ContractError::InvalidAmount),
        Some(amount) => {
            if amount == 0 {
                return Err(ContractError::InvalidAmount);
            }
            let loaded = store.load();
            match loaded {
                Err(e) => Err(e),
                Ok(state) => {
                    let mut state = state;
                    proof {
                        lemma_credit_sorted(entries_view(state.balances@), sender@, amount);
                    }
                    credit_entry(&mut state.balances, sender, amount);
                    store.save(state);
                    Ok(Response::default())
                },
            }
        },
    }
}

/// Credits each recipient with the matching amount, atomically as a whole.
/// Only the admin may distribute; the recipient and amount lists must match
/// in length.  Nothing is debited: the distribution credits out of the
/// contract's unbounded pool.
pub fn distribute_funds(
    store: &mut LedgerStore,
    caller: &String,
    recipients: Vec<String>,
    amounts: Vec<u128>,
) -> (r: Result<Response, ContractError>)
    requires
        old(store).wf(),
        old(store)@ matches Some(st) ==> st.admin == caller@ && recipients@.len()
            == amounts@.len() ==> total_of(st.balances) + sum_of(amounts@) <= u128::MAX,
    ensures
        final(store).wf(),
        match old(store)@ {
            None => r == Err::<Response, ContractError>(ContractError::NotInitialized) && final(store)@ == old(store)@,
            Some(st) => match spec_distribute_funds(
                st,
                caller@,
                strings_view(recipients@),
                amounts@,
            ) {
                Ok(st2) => r matches Ok(resp) && resp.messages@.len() == 0 && final(store)@
                    == Some(st2),
                Err(e) => r == Err::<Response, ContractError>(e) && final(store)@ == old(store)@,
            },
        },
{
    let state = match store.load() {
        Ok(s) => s,
        Err(e) => return Err(e),
    };
    if !(*caller == state.admin) {
        return Err(ContractError::Unauthorized);
    }
    if recipients.len() != amounts.len() {
        return Err(ContractError::LengthMismatch);
    }
    let ghost st0 = state@;
    let ghost rdv = strings_view(recipients@);
    let mut state = state;
    let mut i: usize = 0;
    proof {
        assert(rdv.skip(0) =~= rdv);
        assert(amounts@.skip(0) =~= amounts@);
        assert(amounts@.take(0) =~= Seq::<u128>::empty());
    }
    while i < recipients.len()
        invariant
            i <= recipients.len(),
            recipients@.len() == amounts@.len(),
            rdv == strings_view(recipients@),
            state.admin@ == st0.admin,
            sorted_by_address(entries_view(state.balances@)),
            credit_all(entries_view(state.balances@), rdv.skip(i as int), amounts@.skip(i as int))
                == credit_all(st0.balances, rdv, amounts@),
            total_of(entries_view(state.balances@)) == total_of(st0.balances) + sum_of(
                amounts@.take(i as int),
            ),
            total_of(st0.balances) + sum_of(amounts@) <= u128::MAX,
        decreases recipients.len() - i,
    {
        let ghost cur = entries_view(state.balances@);
        let addr = recipients[i].clone();
        let amt = amounts[i];
        proof {
            assert(rdv[i as int] == recipients@[i as int]@);
            assert(rdv.skip(i as int)[0] == rdv[i as int]);
            assert(rdv.skip(i as int).drop_first() =~= rdv.skip(i as int + 1));
            assert(amounts@.skip(i as int)[0] == amounts@[i as int]);
            assert(amounts@.skip(i as int).drop_first() =~= amounts@.skip(i as int + 1));
            lemma_balance_le_total(cur, addr@);
            lemma_sum_take_skip(amounts@, i as int);
            lemma_sum_of_nonneg(amounts@.skip(i as int + 1));
            assert(sum_of(amounts@.skip(i as int)) == amt + sum_of(amounts@.skip(i as int + 1)));
            lemma_credit_total(cur, addr@, amt);
            lemma_credit_sorted(cur, addr@, amt);
            lemma_sum_take_succ(amounts@, i as int);
        }
        credit_entry(&mut state.balances, addr, amt);
        i = i + 1;
    }
    proof {
        assert(rdv.skip(recipients@.len() as int) =~= Seq::<Seq<char>>::empty());
        assert(amounts@.skip(amounts@.len() as int) =~= Seq::<u128>::empty());
        assert(amounts@.take(amounts@.len() as int) =~= amounts@);
    }
    store.save(state);
    Ok(Response::default())
}

/// Rotates the admin identity to `new_admin`.  Only the current admin may
/// rotate; the balances are untouched.
pub fn try_change_admin(store: &mut LedgerStore, caller: &String, new_admin: String) -> (r: Result<
    Response,
    ContractError,
>)
    requires
        old(store).wf(),
    ensures
        final(store).wf(),
        match old(store)@ {
            None => r == Err::<Response, ContractError>(ContractError::NotInitialized) && final(store)@ == old(store)@,
            Some(st) => match spec_change_admin(st, caller@, new_admin@) {
                Ok(st2) => r matches Ok(resp) && resp.messages@.len() == 0 && final(store)@
                    == Some(st2),
                Err(e) => r == Err::<Response, ContractError>(e) && final(store)@ == old(store)@,
            },
        },
{
    let state = match store.load() {
        Ok(s) => s,
        Err(e) => return Err(e),
    };
    if !(*caller == state.admin) {
        return Err(ContractError::Unauthorized);
    }
    let mut state = state;
    state.admin = new_admin;
    store.save(state);
    Ok(Response::default())
}

/// Dispatches one mutating command: a deposit credits the sender with the
/// attached funds, a distribution credits its recipients, an admin command
/// rotates the admin identity.
pub fn execute(store: &mut LedgerStore, sender: String, funds: Vec<Coin>, msg: HandleMsg) -> (r:
    Result<Response, ContractError>)
    requires
        old(store).wf(),
        msg@ matches HandleMsgV::Deposit && old(store)@ matches Some(st) && spec_find_denom(
            coins_view(funds@),
            deposit_denom(),
        ) matches Some(a) ==> balance_of(st.balances, sender@) + a <= u128::MAX,
        msg@ matches HandleMsgV::DistributeFunds { recipients, amounts } ==> old(store)@
            matches Some(st) ==> st.admin == sender@ && recipients.len() == amounts.len()
            ==> total_of(st.balances) + sum_of(amounts) <= u128::MAX,
    ensures
        final(store).wf(),
        match spec_execute(old(store)@, sender@, coins_view(funds@), msg@) {
            Ok(st2) => r matches Ok(resp) && resp.messages@.len() == 0 && final(store)@ == Some(
                st2,
            ),
            Err(e) => r == Err::<Response, ContractError>(e) && final(store)@ == old(store)@,
        },
{
    match msg {
        HandleMsg::Deposit {} => deposit(store, sender, &funds),
        HandleMsg::DistributeFunds { recipients, amounts } => distribute_funds(
            store,
            &sender,
            recipients,
            amounts,
        ),
        HandleMsg::Admin { new_admin } => try_change_admin(store, &sender, new_admin),
    }
}

/// Returns the full balance mapping as a list of address/amount pairs, in
/// address order.  No authorization is required.
pub fn query_balance(store: &LedgerStore) -> (r: Result<Vec<(String, u128)>, ContractError>)
    ensures
        match store@ {
            None => r == Err::<Vec<(String, u128)>, ContractError>(ContractError::NotInitialized),
            Some(st) => r matches Ok(list) && pairs_view(list@) == st.balances,
        },
{
    let state = match store.load() {
        Ok(s) => s,
        Err(e) => return Err(e),
    };
    let ghost bal = entries_view(state.balances@);
    let mut out: Vec<(String, u128)> = Vec::new();
    let mut i: usize = 0;
    proof {
        assert(pairs_view(out@) =~= bal.take(0));
    }
    while i < state.balances.len()
        invariant
            i <= state.balances.len(),
            bal == entries_view(state.balances@),
            pairs_view(out@) == bal.take(i as int),
        decreases state.balances.len() - i,
    {
        let ghost outv = out@;
        let addr = state.balances[i].address.clone();
        let amount = state.balances[i].balance;
        let pair = (addr, amount);
        let ghost pairg = pair;
        out.push(pair);
        proof {
            assert(out@ == outv.push(pairg));
            assert(pairs_view(outv).len() == outv.len());
            assert(bal.len() == state.balances@.len());
            assert(bal.take(i as int).len() == i);
            assert(outv.len() == i);
            assert forall|j: int| 0 <= j < i + 1 implies #[trigger] pairs_view(out@)[j]
                == bal.take(i as int + 1)[j] by {
                assert(bal.take(i as int + 1)[j] == bal[j]);
                if j < i {
                    assert(out@[j] == outv[j]);
                    assert(pairs_view(outv)[j] == bal.take(i as int)[j]);
                    assert(bal.take(i as int)[j] == bal[j]);
                } else {
                    assert(out@[j] == pairg);
                    assert(pairg.0 == state.balances@[i as int].address);
                }
            }
            assert(pairs_view(out@) =~= bal.take(i as int + 1));
        }
        i = i + 1;
    }
    proof {
        assert(bal.take(state.balances@.len() as int) =~= bal);
    }
    Ok(out)
}

/// Answers one read-only query against the stored state.
pub fn query(store: &LedgerStore, msg: QueryMsg) -> (r: Result<QueryAnswer, ContractError>)
    ensures
        match store@ {
            None => r == Err::<QueryAnswer, ContractError>(ContractError::NotInitialized),
            Some(st) => r matches Ok(QueryAnswer::GetBalance { result }) && pairs_view(result@)
                == st.balances,
        },
{
    match msg {
        QueryMsg::GetBalance {} => match query_balance(store) {
            Ok(result) => Ok(QueryAnswer::GetBalance { result }),
            Err(e) => Err(e),
        },
    }
}

/// Admin rotation law: when the admin rotates the admin identity to a
/// different one, the rotation succeeds, and a subsequent distribution
/// attempted by the old admin is rejected as `Unauthorized`.
pub proof fn lemma_admin_rotation(
    st: StateV,
    caller: Seq<char>,
    new_admin: Seq<char>,
    recipients: Seq<Seq<char>>,
    amounts: Seq<u128>,
)
    requires
        caller == st.admin,
        new_admin != caller,
    ensures
        spec_change_admin(st, caller, new_admin) matches Ok(st2) && spec_distribute_funds(
            st2,
            caller,
            recipients,
            amounts,
        ) == Err::<StateV, ContractError>(ContractError::Unauthorized),
{
}

/// One invocation of the command processor: the caller identity, the attached
/// funds and the command.
pub ghost struct Invocation {
    pub sender: Seq<char>,
    pub funds: Seq<(Seq<char>, u128)>,
    pub msg: HandleMsgV,
}

/// What one invocation leaves in the store: the state an accepted command
/// yields, or the stored state untouched when the command is rejected.
pub open spec fn spec_step(stored: Option<StateV>, inv: Invocation) -> Option<StateV> {
    match spec_execute(stored, inv.sender, inv.funds, inv.msg) {
        Ok(st2) => Some(st2),
        Err(_) => stored,
    }
}

/// What a whole sequence of invocations leaves in the store.
pub open spec fn spec_run(stored: Option<StateV>, invs: Seq<Invocation>) -> Option<StateV>
    decreases invs.len(),
{
    if invs.len() == 0 {
        stored
    } else {
        spec_run(spec_step(stored, invs[0]), invs.drop_first())
    }
}

/// The arithmetic of one invocation fits in `u128` balances.
pub open spec fn spec_step_fits(stored: Option<StateV>, inv: Invocation) -> bool {
    &&& (stored matches Some(st) ==> inv.msg matches HandleMsgV::DistributeFunds {
        recipients,
        amounts,
    } ==> total_of(st.balances) + sum_of(amounts) <= u128::MAX)
    &&& (stored matches Some(st) ==> inv.msg matches HandleMsgV::Deposit ==> spec_find_denom(
        inv.funds,
        deposit_denom(),
    ) matches Some(a) ==> balance_of(st.balances, inv.sender) + a <= u128::MAX)
}

/// The arithmetic of every invocation of the sequence fits, step by step.
pub open spec fn spec_run_fits(stored: Option<StateV>, invs: Seq<Invocation>) -> bool
    decreases invs.len(),
{
    invs.len() == 0 || (spec_step_fits(stored, invs[0]) && spec_run_fits(
        spec_step(stored, invs[0]),
        invs.drop_first(),
    ))
}

/// The total of all balances of a stored state, zero when nothing is stored.
pub open spec fn stored_total(stored: Option<StateV>) -> int {
    match stored {
        Some(st) => total_of(st.balances),
        None => 0,
    }
}

/// The stored state, if any, is well-formed.
pub open spec fn stored_wf(stored: Option<StateV>) -> bool {
    match stored {
        Some(st) => sorted_by_address(st.balances),
        None => true,
    }
}

/// Conservation law over whole sessions: across any sequence of invocations
/// the total of all balances never decreases — rejected commands change
/// nothing, and accepted ones only add the deposited or distributed amounts.
pub proof fn lemma_run_total_monotone(stored: Option<StateV>, invs: Seq<Invocation>)
    requires
        stored_wf(stored),
        spec_run_fits(stored, invs),
    ensures
        stored_wf(spec_run(stored, invs)),
        stored_total(spec_run(stored, invs)) >= stored_total(stored),
    decreases invs.len(),
{
    if invs.len() > 0 {
        let inv = invs[0];
        let next = spec_step(stored, inv);
        match spec_execute(stored, inv.sender, inv.funds, inv.msg) {
            Ok(st2) => {
                lemma_execute_total_monotone(stored, inv.sender, inv.funds, inv.msg, st2);
                lemma_total_of_nonneg(st2.balances);
            },
            Err(_) => {},
        }
        lemma_run_total_monotone(next, invs.drop_first());
    }
}

/// Conservation law: across any accepted mutating command the total of all
/// balances never decreases.  It grows by exactly the deposited amount on a
/// deposit, by exactly the sum of the distributed amounts on a distribution,
/// and not at all on an admin rotation; and the new state is well-formed.
pub proof fn lemma_execute_total_monotone(
    stored: Option<StateV>,
    sender: Seq<char>,
    funds: Seq<(Seq<char>, u128)>,
    msg: HandleMsgV,
    st2: StateV,
)
    requires
        stored matches Some(st) ==> sorted_by_address(st.balances),
        spec_execute(stored, sender, funds, msg) == Ok::<StateV, ContractError>(st2),
        stored matches Some(st) ==> msg matches HandleMsgV::DistributeFunds {
            recipients,
            amounts,
        } ==> total_of(st.balances) + sum_of(amounts) <= u128::MAX,
        stored matches Some(st) ==> msg matches HandleMsgV::Deposit ==> spec_find_denom(
            funds,
            deposit_denom(),
        ) matches Some(a) ==> balance_of(st.balances, sender) + a <= u128::MAX,
    ensures
        stored matches Some(st) && total_of(st2.balances) >= total_of(st.balances),
        sorted_by_address(st2.balances),
        stored matches Some(st) ==> msg matches HandleMsgV::Deposit ==> spec_find_denom(
            funds,
            deposit_denom(),
        ) matches Some(a) ==> total_of(st2.balances) == total_of(st.balances) + a,
        stored matches Some(st) ==> msg matches HandleMsgV::DistributeFunds {
            recipients,
            amounts,
        } ==> total_of(st2.balances) == total_of(st.balances) + sum_of(amounts),
        stored matches Some(st) ==> msg matches HandleMsgV::Admin { new_admin } ==> st2.balances
            == st.balances,
{
    let st = stored->Some_0;
    match msg {
        HandleMsgV::Deposit => {
            let a = spec_find_denom(funds, deposit_denom())->Some_0;
            lemma_credit_total(st.balances, sender, a);
            lemma_credit_sorted(st.balances, sender, a);
        },
        HandleMsgV::DistributeFunds { recipients, amounts } => {
            lemma_sum_of_nonneg(amounts);
            lemma_credit_all_sorted_total(st.balances, recipients, amounts);
        },
        HandleMsgV::Admin { new_admin } => {},
    }
}

} // verus!
