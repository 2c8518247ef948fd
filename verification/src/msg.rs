//! What goes into the lockbox and what comes out of it: the calls, the
//! answers, and the messages that move released funds.

use crate::asset::{Asset, Funds};
use crate::balance::{assets, Coin, Fungible};
use crate::state::LockView;
use crate::time::Timestamp;
use vstd::prelude::*;

verus! {

/// The block in which a call runs.
#[derive(Clone, Copy, Debug, PartialEq, Eq)]
pub struct BlockInfo {
    pub time: Timestamp,
}

/// The surroundings of a call.
#[derive(Clone, Copy, Debug, PartialEq, Eq)]
pub struct Env {
    pub block: BlockInfo,
}

/// Who made a call, and the native coins that came with it.
#[derive(Clone, Debug, PartialEq, Eq)]
pub struct MessageInfo {
    pub sender: String,
    pub funds: Vec<Coin>,
}

/// Sets the lockbox up.
#[derive(Clone, Copy, Debug, PartialEq, Eq)]
pub struct InstantiateMsg {
    /// A lock must last less than this many seconds.
    pub max_lock_time: u64,
}

/// What a depositor of tokens asks for, carried by the notice of the deposit.
#[derive(Clone, Debug, PartialEq, Eq)]
pub enum ReceiveMsg {
    Lock { id: String, expire: Timestamp },
    IncreaseLock { id: String },
}

/// The notice that a token contract sends when tokens were deposited.
#[derive(Clone, Debug, PartialEq, Eq)]
pub struct Cw20ReceiveMsg {
    /// Who deposited the tokens.
    pub sender: String,
    /// How many tokens were deposited.
    pub amount: u128,
    /// What the depositor asks for; `None` if that could not be decoded.
    pub msg: Option<ReceiveMsg>,
}

/// A call that changes the lockbox.
#[derive(Clone, Debug, PartialEq, Eq)]
pub enum ExecuteMsg {
    Lock { id: String, expire: Timestamp },
    IncreaseLock { id: String },
    Unlock { id: String },
    Receive(Cw20ReceiveMsg),
}

/// A question to the lockbox.
#[derive(Clone, Debug, PartialEq, Eq)]
pub enum QueryMsg {
    Lock { address: String, id: String },
    AllLocks { address: String },
}

/// An amount of the token whose contract has the address `address`.
#[derive(Clone, Debug, PartialEq, Eq)]
pub struct Cw20Coin {
    pub address: String,
    pub amount: u128,
}

impl Fungible for Cw20Coin {
    open spec fn name_spec(&self) -> Seq<char> {
        self.address@
    }

    open spec fn amount_spec(&self) -> u128 {
        self.amount
    }

    fn name(&self) -> (n: &String) {
        &self.address
    }

    fn amount(&self) -> (a: u128) {
        self.amount
    }

    fn of(name: String, amount: u128) -> (r: Self) {
        Cw20Coin { address: name, amount }
    }
}

/// What a question about a lock is answered with.
#[derive(Clone, Debug, PartialEq, Eq)]
pub struct LockInfo {
    pub id: String,
    pub owner: String,
    pub create: Timestamp,
    pub expire: Timestamp,
    pub complete: bool,
    pub native_balance: Vec<Coin>,
    pub cw20_balance: Vec<Cw20Coin>,
}

impl View for LockInfo {
    type V = LockView;

    open spec fn view(&self) -> LockView {
        LockView {
            owner: self.owner@,
            id: self.id@,
            create: self.create,
            expire: self.expire,
            funds: Funds {
                native: assets(self.native_balance@),
                cw20: assets(self.cw20_balance@),
            },
            complete: self.complete,
        }
    }
}

/// The locks that a list of answers describes, in its order.
pub open spec fn lock_info_views(s: Seq<LockInfo>) -> Seq<LockView> {
    Seq::new(s.len(), |i: int| s[i]@)
}

/// What a question about all locks of an owner is answered with.
#[derive(Clone, Debug, PartialEq, Eq)]
pub struct AllLocksResponse {
    pub locks: Vec<LockInfo>,
}

impl View for AllLocksResponse {
    type V = Seq<LockView>;

    open spec fn view(&self) -> Seq<LockView> {
        lock_info_views(self.locks@)
    }
}

/// The answer to a question.
#[derive(Clone, Debug, PartialEq, Eq)]
pub enum QueryResponse {
    Lock(LockInfo),
    AllLocks(AllLocksResponse),
}

/// A key and a value that a call leaves in the log.
#[derive(Clone, Debug, PartialEq, Eq)]
pub struct Attribute {
    pub key: String,
    pub value: String,
}

/// An [`Attribute`] as the contracts speak of it.
pub struct AttributeView {
    pub key: Seq<char>,
    pub value: Seq<char>,
}

impl View for Attribute {
    type V = AttributeView;

    open spec fn view(&self) -> AttributeView {
        AttributeView { key: self.key@, value: self.value@ }
    }
}

/// The attribute with this key and this value.
pub fn attr(key: &str, value: &str) -> (r: Attribute)
    ensures
        r@ == (AttributeView { key: key@, value: value@ }),
{
    Attribute { key: key.to_owned(), value: value.to_owned() }
}

/// Bytes that are passed on as they are.
#[derive(Clone, Debug, PartialEq, Eq)]
pub struct Binary(pub Vec<u8>);

/// A message to the bank.
#[derive(Clone, Debug, PartialEq, Eq)]
pub enum BankMsg {
    /// Pays native coins to an address.
    Send { to_address: String, amount: Vec<Coin> },
}

/// A message to a contract.
#[derive(Clone, Debug, PartialEq, Eq)]
pub enum WasmMsg {
    /// Calls the contract at `contract_addr` with the encoded message `msg`,
    /// and sends native coins along.
    Execute { contract_addr: String, msg: Binary, send: Vec<Coin> },
}

/// A message that the lockbox asks to have carried out.
#[derive(Clone, Debug, PartialEq, Eq)]
pub enum CosmosMsg {
    Bank(BankMsg),
    Wasm(WasmMsg),
}

/// A [`CosmosMsg`] as the contracts speak of it.
pub enum CosmosMsgView {
    Send { to_address: Seq<char>, amount: Seq<Asset> },
    Execute { contract_addr: Seq<char>, msg: Seq<u8>, send: Seq<Asset> },
}

impl View for CosmosMsg {
    type V = CosmosMsgView;

    open spec fn view(&self) -> CosmosMsgView {
        match self {
            CosmosMsg::Bank(BankMsg::Send { to_address, amount }) => CosmosMsgView::Send {
                to_address: to_address@,
                amount: assets(amount@),
            },
            CosmosMsg::Wasm(
                WasmMsg::Execute { contract_addr, msg, send },
            ) => CosmosMsgView::Execute {
                contract_addr: contract_addr@,
                msg: msg.0@,
                send: assets(send@),
            },
        }
    }
}

/// The messages that a list holds, in its order.
pub open spec fn msg_views(s: Seq<CosmosMsg>) -> Seq<CosmosMsgView> {
    Seq::new(s.len(), |i: int| s[i]@)
}

/// The attributes that a list holds, in its order.
pub open spec fn attr_views(s: Seq<Attribute>) -> Seq<AttributeView> {
    Seq::new(s.len(), |i: int| s[i]@)
}

/// What a call that went through hands back: messages to be carried out,
/// and attributes for the log.
#[derive(Clone, Debug, PartialEq, Eq)]
pub struct Response {
    pub messages: Vec<CosmosMsg>,
    pub attributes: Vec<Attribute>,
}

/// A [`Response`] as the contracts speak of it.
pub struct ResponseView {
    pub messages: Seq<CosmosMsgView>,
    pub attributes: Seq<AttributeView>,
}

impl View for Response {
    type V = ResponseView;

    open spec fn view(&self) -> ResponseView {
        ResponseView { messages: msg_views(self.messages@), attributes: attr_views(self.attributes@) }
    }
}

impl Response {
    /// A response without messages and without attributes.
    pub fn new() -> (r: Response)
        ensures
            r@ == (ResponseView { messages: Seq::empty(), attributes: Seq::empty() }),
    {
        let r = Response { messages: Vec::new(), attributes: Vec::new() };
        assert(msg_views(r.messages@) =~= Seq::empty());
        assert(attr_views(r.attributes@) =~= Seq::empty());
        r
    }
}

} // verus!
