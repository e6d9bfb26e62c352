//! The command, query and response payloads of the ledger.
//!
//! These are the plain values the host hands the core after decoding a wire
//! message, and the plain values it receives back; the wire format itself is
//! the host's concern.

use vstd::prelude::*;
use crate::balances::BalanceEntry;

verus! {

/// A coin attached to an invocation: a denomination and an amount.
#[derive(Debug, PartialEq)]
pub struct Coin {
    pub denom: String,
    pub amount: u128,
}

impl View for Coin {
    type V = (Seq<char>, u128);

    open spec fn view(&self) -> (Seq<char>, u128) {
        (self.denom@, self.amount)
    }
}

/// The model of an attached-funds list: each coin as a pair.
pub open spec fn coins_view(s: Seq<Coin>) -> Seq<(Seq<char>, u128)> {
    s.map_values(|c: Coin| c@)
}

/// An outbound transfer effect: a recipient and the amount to send it.
#[derive(Debug, PartialEq)]
pub struct Transfer {
    pub recipient: String,
    pub amount: u128,
}

impl View for Transfer {
    type V = (Seq<char>, u128);

    open spec fn view(&self) -> (Seq<char>, u128) {
        (self.recipient@, self.amount)
    }
}

/// The model of an effect list: each transfer as a pair.
pub open spec fn transfers_view(s: Seq<Transfer>) -> Seq<(Seq<char>, u128)> {
    s.map_values(|t: Transfer| t@)
}

/// What a successful mutation hands back to the host: zero or more outbound
/// transfer effects to perform.
#[derive(Debug)]
pub struct Response {
    pub messages: Vec<Transfer>,
}

impl Default for Response {
    fn default() -> (r: Self)
        ensures
            r.messages@.len() == 0,
    {
        Response { messages: Vec::new() }
    }
}

/// The instantiation payload: the initial balance entries.
pub struct InitMsg {
    pub initial_balances: Vec<BalanceEntry>,
}

/// The mutating commands of the ledger.
pub enum HandleMsg {
    /// Credit the sender with the funds attached to the invocation.
    Deposit {},
    /// Credit each recipient with the matching amount; admin only.
    DistributeFunds { recipients: Vec<String>, amounts: Vec<u128> },
    /// Rotate the admin identity; admin only.
    Admin { new_admin: String },
}

/// The model of a list of identities.
pub open spec fn strings_view(s: Seq<String>) -> Seq<Seq<char>> {
    s.map_values(|x: String| x@)
}

/// The mathematical value of a mutating command.
pub ghost enum HandleMsgV {
    Deposit,
    DistributeFunds { recipients: Seq<Seq<char>>, amounts: Seq<u128> },
    Admin { new_admin: Seq<char> },
}

impl View for HandleMsg {
    type V = HandleMsgV;

    open spec fn view(&self) -> HandleMsgV {
        match self {
            HandleMsg::Deposit {} => HandleMsgV::Deposit,
            HandleMsg::DistributeFunds { recipients, amounts } => HandleMsgV::DistributeFunds {
                recipients: strings_view(recipients@),
                amounts: amounts@,
            },
            HandleMsg::Admin { new_admin } => HandleMsgV::Admin { new_admin: new_admin@ },
        }
    }
}

/// The read-only queries of the ledger.
pub enum QueryMsg {
    /// Return the full balance mapping in address order.
    GetBalance {},
}

/// The answer to a ledger query.
#[derive(Debug)]
pub enum QueryAnswer {
    GetBalance { result: Vec<(String, u128)> },
}

/// The model of a balance listing: each pair with the address as a sequence.
pub open spec fn pairs_view(s: Seq<(String, u128)>) -> Seq<(Seq<char>, u128)> {
    s.map_values(|p: (String, u128)| (p.0@, p.1))
}

/// The acknowledgement payload of each mutating command, for hosts that
/// serialize the kind of command acknowledged into their response.
#[derive(Clone, Copy, Debug, PartialEq, Eq, Structural)]
pub enum HandleAnswer {
    Deposit {},
    DistributeFunds {},
    Admin {},
}

} // verus!
