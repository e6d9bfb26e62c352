//! Tests of the equal-split reward mode: staker registration and reward
//! distribution.

use distribution::errors::ContractError;
use distribution::stakers::{
    distribute_rewards, handle, instantiate, read_stakers, store_stakers, HandleMsg, Staker,
    StakerStore, Stakers,
};

const ADMIN: &str = "admin_contract_address";

fn staker(address: &str, amount: u128) -> Staker {
    Staker { address: address.to_string(), amount }
}

#[test]
fn contract_proper_initialization() {
    let mut store = StakerStore::new();
    let res = instantiate(&mut store, 0).unwrap();
    assert_eq!(0, res.messages.len());

    // It should store the empty list of stakers
    let stakers = read_stakers(&store);
    assert_eq!(0, stakers.stakers.len());
}

#[test]
fn add_stakers() {
    let mut store = StakerStore::new();
    instantiate(&mut store, 0).unwrap();

    let staker1 = staker("addr1", 100);
    let staker2 = staker("addr2", 200);
    let msg = HandleMsg::AddStakers { stakers: vec![staker1.clone(), staker2.clone()] };
    let res = handle(&mut store, &ADMIN.to_string(), msg).unwrap();
    assert_eq!(0, res.messages.len());

    // It should store the stakers
    let stakers = read_stakers(&store);
    assert_eq!(2, stakers.stakers.len());
    assert_eq!(staker1, stakers.stakers[0]);
    assert_eq!(staker2, stakers.stakers[1]);
}

#[test]
fn add_stakers_appends_to_existing_registry() {
    let mut store = StakerStore::new();
    distribution::stakers::add_stakers(&mut store, &ADMIN.to_string(), vec![staker("addr1", 100)]).unwrap();
    distribution::stakers::add_stakers(&mut store, &ADMIN.to_string(), vec![staker("addr2", 200)]).unwrap();

    let stakers = read_stakers(&store);
    assert_eq!(2, stakers.stakers.len());
    assert_eq!("addr1", stakers.stakers[0].address);
    assert_eq!("addr2", stakers.stakers[1].address);
}

#[test]
fn add_stakers_by_non_admin_fails_with_unauthorized() {
    let mut store = StakerStore::new();
    let err =
        distribution::stakers::add_stakers(&mut store, &"addr1".to_string(), vec![staker("addr1", 100)]).unwrap_err();
    assert_eq!(ContractError::Unauthorized, err);
    assert_eq!(0, read_stakers(&store).stakers.len());
}

#[test]
fn distribute_rewards_with_no_stakers_fails() {
    let mut store = StakerStore::new();
    instantiate(&mut store, 0).unwrap();

    let err = distribute_rewards(&store, 100).unwrap_err();
    assert_eq!(ContractError::NoStakers, err);
}

#[test]
fn distribute_rewards_smaller_than_staker_count_fails() {
    let mut store = StakerStore::new();
    distribution::stakers::add_stakers(
        &mut store,
        &ADMIN.to_string(),
        vec![staker("addr1", 100), staker("addr2", 200)],
    )
    .unwrap();

    let err = distribute_rewards(&store, 1).unwrap_err();
    assert_eq!(ContractError::AmountTooSmall, err);
}

#[test]
fn distribute_rewards_sends_each_staker_an_equal_share() {
    let mut store = StakerStore::new();
    distribution::stakers::add_stakers(
        &mut store,
        &ADMIN.to_string(),
        vec![staker("addr1", 100), staker("addr2", 200), staker("addr3", 300)],
    )
    .unwrap();

    // 10 / 3 rounds down to 3; the remainder of 1 is not distributed
    let res = distribute_rewards(&store, 10).unwrap();
    assert_eq!(3, res.messages.len());
    for (i, expected) in ["addr1", "addr2", "addr3"].iter().enumerate() {
        assert_eq!(*expected, res.messages[i].recipient);
        assert_eq!(3, res.messages[i].amount);
    }
}

#[test]
fn handle_rejects_distribution_by_non_admin() {
    let mut store = StakerStore::new();
    distribution::stakers::add_stakers(&mut store, &ADMIN.to_string(), vec![staker("addr1", 100)]).unwrap();

    let msg = HandleMsg::DistributeRewards { amount: 100 };
    let err = handle(&mut store, &"addr1".to_string(), msg).unwrap_err();
    assert_eq!(ContractError::Unauthorized, err);
}

#[test]
fn handle_distributes_rewards_for_the_admin() {
    let mut store = StakerStore::new();
    distribution::stakers::add_stakers(&mut store, &ADMIN.to_string(), vec![staker("addr1", 100)]).unwrap();

    let msg = HandleMsg::DistributeRewards { amount: 100 };
    let res = handle(&mut store, &ADMIN.to_string(), msg).unwrap();
    assert_eq!(1, res.messages.len());
    assert_eq!("addr1", res.messages[0].recipient);
    assert_eq!(100, res.messages[0].amount);
}

#[test]
fn store_stakers_replaces_the_registry_wholesale() {
    let mut store = StakerStore::new();
    store_stakers(&mut store, &Stakers { stakers: vec![staker("addr1", 100)] });
    store_stakers(&mut store, &Stakers { stakers: vec![staker("addr2", 200)] });

    let stakers = read_stakers(&store);
    assert_eq!(1, stakers.stakers.len());
    assert_eq!("addr2", stakers.stakers[0].address);
}
