//! The equal-split reward mode: a registered staker list and a distribution
//! that sends every staker the same share of a reward total.
//!
//! Rewards are outbound transfer effects, not ledger credits: the division
//! rounds down, the remainder is kept, and a share of zero is rejected.

use vstd::prelude::*;
use crate::errors::ContractError;
use crate::msg::{transfers_view, Response, Transfer};

verus! {

/// The identity allowed to register stakers and distribute rewards.
pub open spec fn staking_admin() -> Seq<char> {
    "admin_contract_address"@
}

fn staking_admin_string() -> (s: String)
    ensures
        s@ == staking_admin(),
{
    "admin_contract_address".to_owned()
}

/// A registered staker: an address and its staked amount.
#[derive(Debug, PartialEq)]
pub struct Staker {
    pub address: String,
    pub amount: u128,
}

impl View for Staker {
    type V = (Seq<char>, u128);

    open spec fn view(&self) -> (Seq<char>, u128) {
        (self.address@, self.amount)
    }
}

impl Clone for Staker {
    fn clone(&self) -> (res: Self)
        ensures
            res == *self,
    {
        Staker { address: self.address.clone(), amount: self.amount }
    }
}

/// The model of a staker list: each staker as an address/amount pair.
pub open spec fn stakers_view(s: Seq<Staker>) -> Seq<(Seq<char>, u128)> {
    s.map_values(|x: Staker| x@)
}

/// The registered staker list.
#[derive(Debug)]
pub struct Stakers {
    pub stakers: Vec<Staker>,
}

impl View for Stakers {
    type V = Seq<(Seq<char>, u128)>;

    open spec fn view(&self) -> Seq<(Seq<char>, u128)> {
        stakers_view(self.stakers@)
    }
}

fn clone_staker_list(v: &Vec<Staker>) -> (r: Vec<Staker>)
    ensures
        r@ == v@,
{
    let mut r: Vec<Staker> = Vec::new();
    let mut i: usize = 0;
    while i < v.len()
        invariant
            i <= v.len(),
            r@ == v@.take(i as int),
        decreases v.len() - i,
    {
        r.push(v[i].clone());
        proof {
            assert(r@ =~= v@.take(i as int + 1));
        }
        i = i + 1;
    }
    proof {
        assert(v@.take(v@.len() as int) =~= v@);
    }
    r
}

impl Clone for Stakers {
    fn clone(&self) -> (res: Self)
        ensures
            res@ == self@,
            res.stakers@ == self.stakers@,
    {
        Stakers { stakers: clone_staker_list(&self.stakers) }
    }
}

/// Storage of the staker registry.
pub struct StakerStore {
    stored: Option<Stakers>,
}

impl View for StakerStore {
    type V = Option<Seq<(Seq<char>, u128)>>;

    closed spec fn view(&self) -> Option<Seq<(Seq<char>, u128)>> {
        match self.stored {
            Some(s) => Some(s@),
            None => None,
        }
    }
}

impl StakerStore {
    /// A store in which no staker registry has ever been saved.
    pub fn new() -> (s: Self)
        ensures
            s@ is None,
    {
        StakerStore { stored: None }
    }
}

/// What a read of the registry yields: the stored list, or the empty list
/// when none was ever stored.
pub open spec fn spec_read_stakers(stored: Option<Seq<(Seq<char>, u128)>>) -> Seq<
    (Seq<char>, u128),
> {
    match stored {
        Some(s) => s,
        None => Seq::<(Seq<char>, u128)>::empty(),
    }
}

/// Replaces the stored staker registry wholesale.
pub fn store_stakers(store: &mut StakerStore, stakers: &Stakers)
    ensures
        final(store)@ == Some(stakers@),
{
    store.stored = Some(stakers.clone());
}

/// Reads the stored staker registry; a registry never stored reads as empty.
pub fn read_stakers(store: &StakerStore) -> (r: Stakers)
    ensures
        r@ == spec_read_stakers(store@),
{
    match &store.stored {
        Some(s) => s.clone(),
        None => {
            let r = Stakers { stakers: Vec::new() };
            proof {
                assert(r@ =~= Seq::<(Seq<char>, u128)>::empty());
            }
            r
        },
    }
}

/// Stores the empty staker registry as the contract's initial state.  The
/// instantiation amount is accepted and ignored.
pub fn instantiate(store: &mut StakerStore, _amount: u128) -> (r: Result<Response, ContractError>)
    ensures
        r matches Ok(resp) && resp.messages@.len() == 0,
        final(store)@ == Some(Seq::<(Seq<char>, u128)>::empty()),
{
    let empty = Stakers { stakers: Vec::new() };
    proof {
        assert(empty@ =~= Seq::<(Seq<char>, u128)>::empty());
    }
    store_stakers(store, &empty);
    Ok(Response::default())
}

/// The commands of the reward-distribution mode.
pub enum HandleMsg {
    /// Send an equal share of `amount` to every registered staker; admin only.
    DistributeRewards { amount: u128 },
    /// Append stakers to the registry; admin only.
    AddStakers { stakers: Vec<Staker> },
}

/// The mathematical value of a reward-mode command.
pub ghost enum HandleMsgV {
    DistributeRewards { amount: u128 },
    AddStakers { stakers: Seq<(Seq<char>, u128)> },
}

impl View for HandleMsg {
    type V = HandleMsgV;

    open spec fn view(&self) -> HandleMsgV {
        match self {
            HandleMsg::DistributeRewards { amount } => HandleMsgV::DistributeRewards {
                amount: *amount,
            },
            HandleMsg::AddStakers { stakers } => HandleMsgV::AddStakers {
                stakers: stakers_view(stakers@),
            },
        }
    }
}

/// What a reward distribution yields: one transfer of `amount` divided by the
/// staker count, rounded down, to every registered staker.  It fails with
/// `NoStakers` on an empty registry and with `AmountTooSmall` when the share
/// rounds down to zero.
pub open spec fn spec_distribute_rewards(stakers: Seq<(Seq<char>, u128)>, amount: u128) -> Result<
    Seq<(Seq<char>, u128)>,
    ContractError,
> {
    if stakers.len() == 0 {
        Err(ContractError::NoStakers)
    } else if amount as int / stakers.len() as int == 0 {
        Err(ContractError::AmountTooSmall)
    } else {
        Ok(
            stakers.map_values(
                |s: (Seq<char>, u128)| (s.0, (amount as int / stakers.len() as int) as u128),
            ),
        )
    }
}

/// What a registration yields: only the admin may register
/// (`Unauthorized` otherwise); the new stakers are appended to the stored
/// registry in input order.
pub open spec fn spec_add_stakers(
    stored: Option<Seq<(Seq<char>, u128)>>,
    sender: Seq<char>,
    stakers: Seq<(Seq<char>, u128)>,
) -> Result<Seq<(Seq<char>, u128)>, ContractError> {
    if sender != staking_admin() {
        Err(ContractError::Unauthorized)
    } else {
        Ok(spec_read_stakers(stored) + stakers)
    }
}

/// What one reward-mode invocation yields: the registry contents afterwards
/// and the outbound transfers to perform, or the error rejecting it.
pub open spec fn spec_handle(
    stored: Option<Seq<(Seq<char>, u128)>>,
    sender: Seq<char>,
    msg: HandleMsgV,
) -> Result<(Option<Seq<(Seq<char>, u128)>>, Seq<(Seq<char>, u128)>), ContractError> {
    match msg {
        HandleMsgV::DistributeRewards { amount } => if sender != staking_admin() {
            Err(ContractError::Unauthorized)
        } else {
            match spec_distribute_rewards(spec_read_stakers(stored), amount) {
                Ok(ts) => Ok((stored, ts)),
                Err(e) => Err(e),
            }
        },
        HandleMsgV::AddStakers { stakers } => match spec_add_stakers(stored, sender, stakers) {
            Ok(s2) => Ok((Some(s2), Seq::<(Seq<char>, u128)>::empty())),
            Err(e) => Err(e),
        },
    }
}

/// Sends every registered staker an equal share of `amount`: the division
/// rounds down and the remainder is not distributed.
pub fn distribute_rewards(store: &StakerStore, amount: u128) -> (r: Result<
    Response,
    ContractError,
>)
    ensures
        match spec_distribute_rewards(spec_read_stakers(store@), amount) {
            Ok(ts) => r matches Ok(resp) && transfers_view(resp.messages@) == ts,
            Err(e) => r == Err::<Response, ContractError>(e),
        },
{
    let stakers = read_stakers(store);
    let ghost sv = stakers@;
    let n = stakers.stakers.len();
    proof {
        assert(sv.len() == stakers.stakers@.len());
    }
    if n == 0 {
        return Err(ContractError::NoStakers);
    }
    let per = amount / (n as u128);
    proof {
        assert(per as int == amount as int / sv.len() as int);
    }
    if per == 0 {
        return Err(ContractError::AmountTooSmall);
    }
    let ghost target = sv.map_values(
        |s: (Seq<char>, u128)| (s.0, (amount as int / sv.len() as int) as u128),
    );
    let mut messages: Vec<Transfer> = Vec::new();
    let mut i: usize = 0;
    proof {
        assert(transfers_view(messages@) =~= target.take(0));
    }
    while i < stakers.stakers.len()
        invariant
            i <= stakers.stakers.len(),
            sv == stakers@,
            target == sv.map_values(
                |s: (Seq<char>, u128)| (s.0, (amount as int / sv.len() as int) as u128),
            ),
            per as int == amount as int / sv.len() as int,
            transfers_view(messages@) == target.take(i as int),
        decreases stakers.stakers.len() - i,
    {
        let ghost mv = messages@;
        let address = stakers.stakers[i].address.clone();
        let transfer = Transfer { recipient: address, amount: per };
        let ghost tg = transfer;
        messages.push(transfer);
        proof {
            assert(messages@ == mv.push(tg));
            assert(transfers_view(mv).len() == mv.len());
            assert(target.take(i as int).len() == i);
            assert forall|j: int| 0 <= j < i + 1 implies #[trigger] transfers_view(messages@)[j]
                == target.take(i as int + 1)[j] by {
                assert(target.take(i as int + 1)[j] == target[j]);
                assert(target[j] == (sv[j].0, per));
                if j < i {
                    assert(messages@[j] == mv[j]);
                    assert(transfers_view(mv)[j] == target.take(i as int)[j]);
                    assert(target.take(i as int)[j] == target[j]);
                } else {
                    assert(messages@[j] == tg);
                    assert(sv[i as int] == (stakers.stakers@[i as int].address@,
                    stakers.stakers@[i as int].amount));
                }
            }
            assert(transfers_view(messages@) =~= target.take(i as int + 1));
        }
        i = i + 1;
    }
    proof {
        assert(target.take(sv.len() as int) =~= target);
    }
    Ok(Response { messages })
}

/// Appends the given stakers to the stored registry, in input order.  Only
/// the admin may register stakers.
pub fn add_stakers(store: &mut StakerStore, sender: &String, stakers: Vec<Staker>) -> (r: Result<
    Response,
    ContractError,
>)
    ensures
        match spec_add_stakers(old(store)@, sender@, stakers_view(stakers@)) {
            Ok(s2) => r matches Ok(resp) && resp.messages@.len() == 0 && final(store)@ == Some(s2),
            Err(e) => r == Err::<Response, ContractError>(e) && final(store)@ == old(store)@,
        },
{
    let admin = staking_admin_string();
    if !(*sender == admin) {
        return Err(ContractError::Unauthorized);
    }
    let mut stored = read_stakers(store);
    let ghost curv = stored.stakers@;
    let ghost addv = stakers@;
    let mut stakers = stakers;
    stored.stakers.append(&mut stakers);
    proof {
        assert(stored.stakers@ == curv + addv);
        assert forall|j: int| 0 <= j < stored.stakers@.len() implies #[trigger] stakers_view(
            stored.stakers@,
        )[j] == (stakers_view(curv) + stakers_view(addv))[j] by {
            if j < curv.len() {
                assert(stored.stakers@[j] == curv[j]);
                assert((stakers_view(curv) + stakers_view(addv))[j] == stakers_view(curv)[j]);
            } else {
                assert(stored.stakers@[j] == addv[j - curv.len()]);
                assert((stakers_view(curv) + stakers_view(addv))[j] == stakers_view(addv)[j
                    - curv.len()]);
            }
        }
        assert(stakers_view(stored.stakers@) =~= stakers_view(curv) + stakers_view(addv));
    }
    store_stakers(store, &stored);
    Ok(Response::default())
}

/// Dispatches one reward-mode command: only the admin may distribute rewards
/// or register stakers.
pub fn handle(store: &mut StakerStore, sender: &String, msg: HandleMsg) -> (r: Result<
    Response,
    ContractError,
>)
    ensures
        match spec_handle(old(store)@, sender@, msg@) {
            Ok(res) => r matches Ok(resp) && transfers_view(resp.messages@) == res.1
                && final(store)@ == res.0,
            Err(e) => r == Err::<Response, ContractError>(e) && final(store)@ == old(store)@,
        },
{
    match msg {
        HandleMsg::DistributeRewards { amount } => {
            let admin = staking_admin_string();
            if !(*sender == admin) {
                return Err(ContractError::Unauthorized);
            }
            distribute_rewards(store, amount)
        },
        HandleMsg::AddStakers { stakers } => add_stakers(store, sender, stakers),
    }
}

/// Reward distribution law: an empty registry is rejected with `NoStakers`,
/// and a reward total smaller than the staker count, whose equal share rounds
/// down to zero, is rejected with `AmountTooSmall`.
pub proof fn lemma_distribute_rewards_bounds(stakers: Seq<(Seq<char>, u128)>, amount: u128)
    ensures
        stakers.len() == 0 ==> spec_distribute_rewards(stakers, amount) == Err::<
            Seq<(Seq<char>, u128)>,
            ContractError,
        >(ContractError::NoStakers),
        stakers.len() > 0 && amount < stakers.len() ==> spec_distribute_rewards(stakers, amount)
            == Err::<Seq<(Seq<char>, u128)>, ContractError>(ContractError::AmountTooSmall),
{
    if stakers.len() > 0 && (amount as int) < (stakers.len() as int) {
        assert(amount as int / stakers.len() as int == 0) by (nonlinear_arith)
            requires
                amount as int >= 0,
                (amount as int) < (stakers.len() as int),
        ;
    }
}

} // verus!
