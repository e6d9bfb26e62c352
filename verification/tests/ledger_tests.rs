//! Tests of the ledger: instantiation, deposits, distribution, admin
//! rotation and the balance queries.

use distribution::balances::BalanceEntry;
use distribution::contract::{deposit, execute, instantiate, query, query_balance, try_change_admin};
use distribution::errors::ContractError;
use distribution::msg::{Coin, HandleMsg, InitMsg, QueryMsg, QueryAnswer};
use distribution::query::{get_balance, handle_query, ContractAnswer, ContractQuery};
use distribution::state::State;
use distribution::store::{get_admin, LedgerStore};

fn entry(address: &str, balance: u128) -> BalanceEntry {
    BalanceEntry { address: address.to_string(), balance }
}

fn coin(denom: &str, amount: u128) -> Coin {
    Coin { denom: denom.to_string(), amount }
}

fn balances_of(store: &LedgerStore) -> Vec<(String, u128)> {
    match query(store, QueryMsg::GetBalance {}).unwrap() {
        QueryAnswer::GetBalance { result } => result,
    }
}

#[test]
fn tests_proper_initialization() {
    let mut store = LedgerStore::new();

    let msg = InitMsg { initial_balances: vec![entry("addr1", 100), entry("addr2", 50)] };

    // we can just call .unwrap() to assert this was a success
    let res = instantiate(&mut store, "creator".to_string(), msg).unwrap();
    assert_eq!(0, res.messages.len());

    // it worked, let's query the state
    let value = balances_of(&store);
    assert_eq!(2, value.len());
    assert_eq!(100, value[0].1);
    assert_eq!(50, value[1].1);
}

#[test]
fn deposit_funds() {
    let mut store = LedgerStore::new();

    // Initialize the contract
    let init_msg = InitMsg { initial_balances: vec![entry("addr1", 100)] };
    instantiate(&mut store, "creator".to_string(), init_msg).unwrap();

    // Execute a deposit
    let deposit_msg = HandleMsg::Deposit {};
    let res = execute(
        &mut store,
        "addr2".to_string(),
        vec![coin("uscrt", 50)],
        deposit_msg,
    )
    .unwrap();
    assert_eq!(0, res.messages.len());

    // Query the updated balance
    let value = balances_of(&store);
    assert_eq!(2, value.len());
    assert_eq!(100, value[0].1);
    assert_eq!(50, value[1].1);
}

#[test]
fn distribute_funds() {
    let mut store = LedgerStore::new();

    // Initialize the contract
    let init_msg = InitMsg { initial_balances: vec![entry("addr1", 100)] };
    instantiate(&mut store, "creator".to_string(), init_msg).unwrap();

    // Execute a distribution
    let distribute_msg = HandleMsg::DistributeFunds {
        recipients: vec!["addr2".to_string(), "addr3".to_string()],
        amounts: vec![30, 20],
    };
    let res = execute(&mut store, "creator".to_string(), vec![], distribute_msg).unwrap();
    assert_eq!(0, res.messages.len());

    // Query the updated balance: recipients are credited, nothing is debited
    let value = balances_of(&store);
    assert_eq!(3, value.len());
    assert_eq!(("addr1".to_string(), 100), value[0]);
    assert_eq!(("addr2".to_string(), 30), value[1]);
    assert_eq!(("addr3".to_string(), 20), value[2]);
}

#[test]
fn admin_change() {
    let mut store = LedgerStore::new();

    // Initialize the contract
    let init_msg = InitMsg { initial_balances: vec![entry("addr1", 100)] };
    instantiate(&mut store, "creator".to_string(), init_msg).unwrap();

    // Execute an admin change
    let new_admin = String::from("new_admin");
    let admin_change_msg = HandleMsg::Admin { new_admin: new_admin.clone() };
    let res = execute(&mut store, "creator".to_string(), vec![], admin_change_msg).unwrap();
    assert_eq!(0, res.messages.len());

    // Query the updated admin
    let queried_admin = get_admin(&store).unwrap();
    assert_eq!(new_admin, queried_admin);
}

#[test]
fn instantiation_sets_creator_as_admin() {
    let mut store = LedgerStore::new();
    let msg = InitMsg { initial_balances: vec![entry("addr1", 100), entry("addr2", 50)] };
    instantiate(&mut store, "creator".to_string(), msg).unwrap();

    assert_eq!("creator".to_string(), get_admin(&store).unwrap());
    let value = balances_of(&store);
    assert_eq!(
        vec![("addr1".to_string(), 100), ("addr2".to_string(), 50)],
        value
    );
}

#[test]
fn instantiation_orders_balances_by_address() {
    let mut store = LedgerStore::new();
    let msg = InitMsg { initial_balances: vec![entry("bob", 2), entry("alice", 1)] };
    instantiate(&mut store, "creator".to_string(), msg).unwrap();

    let value = balances_of(&store);
    assert_eq!(
        vec![("alice".to_string(), 1), ("bob".to_string(), 2)],
        value
    );
}

#[test]
fn instantiation_repeated_address_keeps_last_amount() {
    let mut store = LedgerStore::new();
    let msg = InitMsg { initial_balances: vec![entry("addr1", 5), entry("addr1", 9)] };
    instantiate(&mut store, "creator".to_string(), msg).unwrap();

    let value = balances_of(&store);
    assert_eq!(vec![("addr1".to_string(), 9)], value);
}

#[test]
fn deposit_of_zero_fails_with_invalid_amount() {
    let mut store = LedgerStore::new();
    let msg = InitMsg { initial_balances: vec![entry("addr1", 100)] };
    instantiate(&mut store, "creator".to_string(), msg).unwrap();

    let err = deposit(&mut store, "addr2".to_string(), &vec![coin("uscrt", 0)]).unwrap_err();
    assert_eq!(ContractError::InvalidAmount, err);
    assert_eq!(vec![("addr1".to_string(), 100)], balances_of(&store));
}

#[test]
fn deposit_without_recognized_funds_fails_with_invalid_amount() {
    let mut store = LedgerStore::new();
    let msg = InitMsg { initial_balances: vec![entry("addr1", 100)] };
    instantiate(&mut store, "creator".to_string(), msg).unwrap();

    let err = deposit(&mut store, "addr2".to_string(), &vec![coin("uatom", 50)]).unwrap_err();
    assert_eq!(ContractError::InvalidAmount, err);
    let err = deposit(&mut store, "addr2".to_string(), &vec![]).unwrap_err();
    assert_eq!(ContractError::InvalidAmount, err);
    assert_eq!(vec![("addr1".to_string(), 100)], balances_of(&store));
}

#[test]
fn deposit_takes_first_coin_of_recognized_denomination() {
    let mut store = LedgerStore::new();
    let msg = InitMsg { initial_balances: vec![] };
    instantiate(&mut store, "creator".to_string(), msg).unwrap();

    let funds = vec![coin("uatom", 5), coin("uscrt", 7), coin("uscrt", 11)];
    deposit(&mut store, "addr1".to_string(), &funds).unwrap();
    assert_eq!(vec![("addr1".to_string(), 7)], balances_of(&store));
}

#[test]
fn deposit_accumulates_on_existing_balance() {
    let mut store = LedgerStore::new();
    let msg = InitMsg { initial_balances: vec![entry("addr1", 100)] };
    instantiate(&mut store, "creator".to_string(), msg).unwrap();

    deposit(&mut store, "addr1".to_string(), &vec![coin("uscrt", 25)]).unwrap();
    assert_eq!(vec![("addr1".to_string(), 125)], balances_of(&store));
}

#[test]
fn distribution_by_non_admin_fails_with_unauthorized() {
    let mut store = LedgerStore::new();
    let msg = InitMsg { initial_balances: vec![entry("addr1", 100)] };
    instantiate(&mut store, "creator".to_string(), msg).unwrap();

    let err = distribution::contract::distribute_funds(
        &mut store,
        &"addr1".to_string(),
        vec!["addr2".to_string()],
        vec![30],
    )
    .unwrap_err();
    assert_eq!(ContractError::Unauthorized, err);
    // the rejection changed nothing
    assert_eq!(vec![("addr1".to_string(), 100)], balances_of(&store));
}

#[test]
fn distribution_with_mismatched_lengths_fails_and_changes_nothing() {
    let mut store = LedgerStore::new();
    let msg = InitMsg { initial_balances: vec![entry("addr1", 100)] };
    instantiate(&mut store, "creator".to_string(), msg).unwrap();

    let err = distribution::contract::distribute_funds(
        &mut store,
        &"creator".to_string(),
        vec!["addr1".to_string()],
        vec![30, 20],
    )
    .unwrap_err();
    assert_eq!(ContractError::LengthMismatch, err);
    assert_eq!(vec![("addr1".to_string(), 100)], balances_of(&store));
}

#[test]
fn distribution_credits_repeated_recipient_cumulatively() {
    let mut store = LedgerStore::new();
    let msg = InitMsg { initial_balances: vec![] };
    instantiate(&mut store, "creator".to_string(), msg).unwrap();

    distribution::contract::distribute_funds(
        &mut store,
        &"creator".to_string(),
        vec!["addr1".to_string(), "addr1".to_string()],
        vec![1, 2],
    )
    .unwrap();
    assert_eq!(vec![("addr1".to_string(), 3)], balances_of(&store));
}

#[test]
fn distribution_conserves_funds_up_to_credited_sum() {
    let mut store = LedgerStore::new();
    let msg = InitMsg { initial_balances: vec![entry("addr1", 100), entry("addr2", 50)] };
    instantiate(&mut store, "creator".to_string(), msg).unwrap();
    let before: u128 = balances_of(&store).iter().map(|p| p.1).sum();

    deposit(&mut store, "addr3".to_string(), &vec![coin("uscrt", 10)]).unwrap();
    distribution::contract::distribute_funds(
        &mut store,
        &"creator".to_string(),
        vec!["addr1".to_string(), "addr4".to_string()],
        vec![5, 6],
    )
    .unwrap();
    try_change_admin(&mut store, &"creator".to_string(), "other".to_string()).unwrap();

    let after: u128 = balances_of(&store).iter().map(|p| p.1).sum();
    assert_eq!(before + 10 + 5 + 6, after);
}

#[test]
fn admin_rotation_revokes_the_old_admin() {
    let mut store = LedgerStore::new();
    let msg = InitMsg { initial_balances: vec![entry("addr1", 100)] };
    instantiate(&mut store, "creator".to_string(), msg).unwrap();

    try_change_admin(&mut store, &"creator".to_string(), "new_admin".to_string()).unwrap();

    // the old admin is no longer authorized
    let err = distribution::contract::distribute_funds(
        &mut store,
        &"creator".to_string(),
        vec!["addr2".to_string()],
        vec![30],
    )
    .unwrap_err();
    assert_eq!(ContractError::Unauthorized, err);

    // the new admin is
    distribution::contract::distribute_funds(
        &mut store,
        &"new_admin".to_string(),
        vec!["addr2".to_string()],
        vec![30],
    )
    .unwrap();
    assert_eq!(
        vec![("addr1".to_string(), 100), ("addr2".to_string(), 30)],
        balances_of(&store)
    );
}

#[test]
fn rotation_by_non_admin_fails_with_unauthorized() {
    let mut store = LedgerStore::new();
    let msg = InitMsg { initial_balances: vec![entry("addr1", 100)] };
    instantiate(&mut store, "creator".to_string(), msg).unwrap();

    let err =
        try_change_admin(&mut store, &"addr1".to_string(), "addr1".to_string()).unwrap_err();
    assert_eq!(ContractError::Unauthorized, err);
    assert_eq!("creator".to_string(), get_admin(&store).unwrap());
}

#[test]
fn uninitialized_store_reports_not_initialized() {
    let mut store = LedgerStore::new();
    assert_eq!(ContractError::NotInitialized, store.load().unwrap_err());
    assert_eq!(ContractError::NotInitialized, get_admin(&store).unwrap_err());
    assert_eq!(
        ContractError::NotInitialized,
        query(&store, QueryMsg::GetBalance {}).unwrap_err()
    );
    assert_eq!(
        ContractError::NotInitialized,
        distribution::contract::distribute_funds(&mut store, &"creator".to_string(), vec![], vec![])
            .unwrap_err()
    );
}

#[test]
fn save_then_load_yields_identical_state() {
    let mut store = LedgerStore::new();
    let state = State::new(
        "creator".to_string(),
        vec![entry("addr1", 100), entry("addr2", 50)],
    );
    store.save(state);

    let loaded = store.load().unwrap();
    assert_eq!("creator", loaded.admin);
    assert_eq!(2, loaded.balances.len());
    assert_eq!("addr1", loaded.balances[0].address);
    assert_eq!(100, loaded.balances[0].balance);
    assert_eq!("addr2", loaded.balances[1].address);
    assert_eq!(50, loaded.balances[1].balance);
}

#[test]
fn query_balance_lists_pairs_in_address_order() {
    let mut store = LedgerStore::new();
    let msg = InitMsg { initial_balances: vec![entry("c", 3), entry("a", 1), entry("b", 2)] };
    instantiate(&mut store, "creator".to_string(), msg).unwrap();

    let list = query_balance(&store).unwrap();
    assert_eq!(
        vec![
            ("a".to_string(), 1),
            ("b".to_string(), 2),
            ("c".to_string(), 3)
        ],
        list
    );
}

#[test]
fn get_balance_returns_zero_for_unknown_address() {
    let mut store = LedgerStore::new();
    let msg = InitMsg { initial_balances: vec![entry("addr1", 100)] };
    instantiate(&mut store, "creator".to_string(), msg).unwrap();

    assert_eq!(100, get_balance(&store, &"addr1".to_string()).unwrap());
    assert_eq!(0, get_balance(&store, &"addr9".to_string()).unwrap());
}

#[test]
fn handle_query_answers_balance_and_admin() {
    let mut store = LedgerStore::new();
    let msg = InitMsg { initial_balances: vec![entry("addr1", 100)] };
    instantiate(&mut store, "creator".to_string(), msg).unwrap();

    let answer = handle_query(
        &store,
        ContractQuery::GetBalance { address: "addr1".to_string() },
    )
    .unwrap();
    assert!(matches!(answer, ContractAnswer::Balance { amount: 100 }));

    let answer = handle_query(&store, ContractQuery::GetAdminAddress).unwrap();
    match answer {
        ContractAnswer::AdminAddress { address } => assert_eq!("creator", address),
        ContractAnswer::Balance { .. } => panic!("expected the admin address"),
    }
}
