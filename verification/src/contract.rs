//! The operations of the lockbox: setting it up, locking funds, adding to a
//! lock, releasing a lock after its expiry, and the questions about locks.

use crate::asset::{Asset, Funds};
use crate::balance::{
    asset_of, assets, converted, Balance, Coin, Cw20CoinVerified, GenericBalance,
};
use crate::encoding::{cw20_transfer_payload, encode_cw20_transfer};
use crate::error::ContractError;
use crate::msg::{
    attr, attr_views, lock_info_views, msg_views, AllLocksResponse, Attribute, AttributeView,
    BankMsg, Binary, CosmosMsg, CosmosMsgView, Cw20Coin, Cw20ReceiveMsg, Env, ExecuteMsg,
    InstantiateMsg, LockInfo, MessageInfo, QueryMsg, QueryResponse, ReceiveMsg, Response,
    ResponseView, WasmMsg,
};
use crate::state::{
    ascending_ids, contains_key, inserted, lock_ref_views, lookup, owned_by, replaced, Lock,
    LockView, Locks, State, StateView, Store, LockboxView,
};
use crate::time::{Timestamp, NANOS_PER_SECOND};
use vstd::prelude::*;

verus! {

/// What a call that goes through brings about: the store after it, and
/// what it hands back.
pub struct Effect {
    pub store: LockboxView,
    pub response: ResponseView,
}

/// The attribute with this key and this value.
pub open spec fn attribute(key: Seq<char>, value: Seq<char>) -> AttributeView {
    AttributeView { key, value }
}

/// The message that pays the native coins out: none where there are none.
pub open spec fn bank_msgs(to: Seq<char>, native: Seq<Asset>) -> Seq<CosmosMsgView> {
    if native.len() == 0 {
        Seq::empty()
    } else {
        seq![CosmosMsgView::Send { to_address: to, amount: native }]
    }
}

/// The message that asks the contract of `token` to transfer its amount to `to`.
pub open spec fn token_msg(to: Seq<char>, token: Asset) -> CosmosMsgView {
    CosmosMsgView::Execute {
        contract_addr: token.name,
        msg: cw20_transfer_payload(to, token.amount as u128)->0,
        send: Seq::empty(),
    }
}

/// One transfer message for each token, in the order of the entries.
pub open spec fn token_msgs(to: Seq<char>, cw20: Seq<Asset>) -> Seq<CosmosMsgView> {
    Seq::new(cw20.len(), |i: int| token_msg(to, cw20[i]))
}

/// The messages that pay `funds` out to `to`: the native coins in one
/// message, if there are any, then the tokens, one by one.
pub open spec fn transfer_msgs(to: Seq<char>, funds: Funds) -> Seq<CosmosMsgView> {
    bank_msgs(to, funds.native) + token_msgs(to, funds.cw20)
}

/// A transfer to `to` can be encoded for every token of `funds`.
pub open spec fn encodable(to: Seq<char>, funds: Funds) -> bool {
    forall|i: int|
        0 <= i < funds.cw20.len() ==> cw20_transfer_payload(
            to,
            (#[trigger] funds.cw20[i]).amount as u128,
        ) is Some
}

/// A lock from `now` until `expire` lasts as long as the longest
/// permitted duration, or longer.
pub open spec fn lasts_too_long(max_lock_time: u64, now: Timestamp, expire: Timestamp) -> bool {
    expire.nanos - now.nanos >= max_lock_time * NANOS_PER_SECOND
}

/// What locking `deposit` under `(sender, id)` until `expire` brings about.
pub open spec fn lock_effect(
    store: LockboxView,
    now: Timestamp,
    deposit: Funds,
    sender: Seq<char>,
    id: Seq<char>,
    expire: Timestamp,
) -> Result<Effect, ContractError> {
    if deposit.is_empty() {
        Err(ContractError::EmptyBalance)
    } else if expire.nanos <= now.nanos {
        Err(ContractError::LowExpired)
    } else if lasts_too_long(store.state.max_lock_time, now, expire) {
        Err(ContractError::HighExpired)
    } else if Funds::empty().merge_overflows(deposit) {
        Err(ContractError::Overflow)
    } else if contains_key(store.locks, sender, id) {
        Err(ContractError::AlreadyInUse)
    } else {
        Ok(
            Effect {
                store: LockboxView {
                    locks: inserted(
                        store.locks,
                        LockView {
                            owner: sender,
                            id,
                            create: now,
                            expire,
                            funds: Funds::empty().merge(deposit),
                            complete: false,
                        },
                    ),
                    ..store
                },
                response: ResponseView {
                    messages: Seq::empty(),
                    attributes: seq![
                        attribute("action"@, "lock"@),
                        attribute("from"@, sender),
                        attribute("id"@, id),
                    ],
                },
            },
        )
    }
}

/// What adding `deposit` to the lock under `(sender, id)` brings about.
/// Whether the lock was released before plays no part.
pub open spec fn increase_effect(
    store: LockboxView,
    deposit: Funds,
    sender: Seq<char>,
    id: Seq<char>,
) -> Result<Effect, ContractError> {
    if deposit.is_empty() {
        Err(ContractError::EmptyBalance)
    } else if !contains_key(store.locks, sender, id) {
        Err(ContractError::NotFound)
    } else if lookup(store.locks, sender, id).funds.merge_overflows(deposit) {
        Err(ContractError::Overflow)
    } else {
        let lock = lookup(store.locks, sender, id);
        Ok(
            Effect {
                store: LockboxView {
                    locks: replaced(
                        store.locks,
                        LockView { funds: lock.funds.merge(deposit), ..lock },
                    ),
                    ..store
                },
                response: ResponseView {
                    messages: Seq::empty(),
                    attributes: seq![
                        attribute("action"@, "increase_lock"@),
                        attribute("from"@, sender),
                        attribute("id"@, id),
                    ],
                },
            },
        )
    }
}

/// What releasing the lock under `(sender, id)` at the time `now` brings
/// about. The funds stay on record in the released lock.
pub open spec fn unlock_effect(
    store: LockboxView,
    now: Timestamp,
    sender: Seq<char>,
    id: Seq<char>,
) -> Result<Effect, ContractError> {
    if !contains_key(store.locks, sender, id) {
        Err(ContractError::NotFound)
    } else if lookup(store.locks, sender, id).complete {
        Err(ContractError::LockComplete)
    } else if now.nanos <= lookup(store.locks, sender, id).expire.nanos {
        Err(ContractError::LockNotExpired)
    } else if !encodable(sender, lookup(store.locks, sender, id).funds) {
        Err(ContractError::Serialize)
    } else {
        let lock = lookup(store.locks, sender, id);
        Ok(
            Effect {
                store: LockboxView {
                    locks: replaced(store.locks, LockView { complete: true, ..lock }),
                    ..store
                },
                response: ResponseView {
                    messages: transfer_msgs(sender, lock.funds),
                    attributes: seq![attribute("action"@, "unlock"@), attribute("from"@, sender)],
                },
            },
        )
    }
}

/// What a deposit of `amount` tokens of the contract `token` brings with it.
pub open spec fn token_deposit(token: Seq<char>, amount: u128) -> Funds {
    Funds { native: Seq::empty(), cw20: seq![Asset { name: token, amount: amount as nat }] }
}

/// What the notice of a token deposit, sent by the contract `token`, brings about.
pub open spec fn receive_effect(
    store: LockboxView,
    now: Timestamp,
    token: Seq<char>,
    wrapper: Cw20ReceiveMsg,
) -> Result<Effect, ContractError> {
    match wrapper.msg {
        None => Err(ContractError::MalformedPayload),
        Some(ReceiveMsg::Lock { id, expire }) => lock_effect(
            store,
            now,
            token_deposit(token, wrapper.amount),
            wrapper.sender@,
            id@,
            expire,
        ),
        Some(ReceiveMsg::IncreaseLock { id }) => increase_effect(
            store,
            token_deposit(token, wrapper.amount),
            wrapper.sender@,
            id@,
        ),
    }
}

/// What the native coins of a call bring with them.
pub open spec fn native_deposit(funds: Seq<Coin>) -> Funds {
    Funds { native: assets(funds), cw20: Seq::empty() }
}

/// What a call brings about.
pub open spec fn execute_effect(
    store: LockboxView,
    now: Timestamp,
    info: MessageInfo,
    msg: ExecuteMsg,
) -> Result<Effect, ContractError> {
    match msg {
        ExecuteMsg::Lock { id, expire } => lock_effect(
            store,
            now,
            native_deposit(info.funds@),
            info.sender@,
            id@,
            expire,
        ),
        ExecuteMsg::IncreaseLock { id } => increase_effect(
            store,
            native_deposit(info.funds@),
            info.sender@,
            id@,
        ),
        ExecuteMsg::Unlock { id } => unlock_effect(store, now, info.sender@, id@),
        ExecuteMsg::Receive(wrapper) => receive_effect(store, now, info.sender@, wrapper),
    }
}

/// A call did what `effect` says: it went through, left the store as it
/// says and handed its response back; or it was refused with its error and
/// left the store as it was.
pub open spec fn meets(
    effect: Result<Effect, ContractError>,
    before: LockboxView,
    after: LockboxView,
    r: Result<Response, ContractError>,
) -> bool {
    match effect {
        Ok(done) => after == done.store && r is Ok && r->Ok_0@ == done.response,
        Err(e) => after == before && r is Err && r->Err_0 == e,
    }
}

/// Sets the lockbox up: it keeps the longest permitted duration and who
/// set it up, and holds no lock.
pub fn instantiate(_env: Env, info: MessageInfo, msg: InstantiateMsg) -> (r: Result<
    (Store, Response),
    ContractError,
>)
    ensures
        r is Ok,
        r->Ok_0.0@ == (LockboxView {
            state: StateView { max_lock_time: msg.max_lock_time, owner: info.sender@ },
            locks: Seq::empty(),
        }),
        r->Ok_0.1@ == (ResponseView { messages: Seq::empty(), attributes: Seq::empty() }),
{
    let state = State { max_lock_time: msg.max_lock_time, owner: info.sender };
    Ok((Store { state, locks: Locks::new() }, Response::new()))
}

/// Carries a call out.
pub fn execute(store: &mut Store, env: Env, info: MessageInfo, msg: ExecuteMsg) -> (r: Result<
    Response,
    ContractError,
>)
    ensures
        meets(
            execute_effect(old(store)@, env.block.time, info, msg),
            old(store)@,
            final(store)@,
            r,
        ),
{
    match msg {
        ExecuteMsg::Lock { id, expire } => {
            let MessageInfo { sender, funds } = info;
            try_lock(store, env, Balance::Native(funds), &sender, id, expire)
        },
        ExecuteMsg::IncreaseLock { id } => {
            let MessageInfo { sender, funds } = info;
            try_increase_lock(store, Balance::Native(funds), &sender, id)
        },
        ExecuteMsg::Unlock { id } => try_unlock(store, env, info, id),
        ExecuteMsg::Receive(wrapper) => try_recive(store, env, info, wrapper),
    }
}

/// The response of a call that leaves these attributes and no message.
fn logged(attributes: Vec<Attribute>) -> (r: Response)
    ensures
        r@ == (ResponseView { messages: Seq::empty(), attributes: attr_views(attributes@) }),
{
    let r = Response { messages: Vec::new(), attributes };
    assert(msg_views(r.messages@) =~= Seq::empty());
    r
}

/// Locks `balance` for `sender` under `id` until `expire`.
pub fn try_lock(
    store: &mut Store,
    env: Env,
    balance: Balance,
    sender: &String,
    id: String,
    expire: Timestamp,
) -> (r: Result<Response, ContractError>)
    ensures
        meets(
            lock_effect(old(store)@, env.block.time, balance@, sender@, id@, expire),
            old(store)@,
            final(store)@,
            r,
        ),
{
    if balance.is_empty() {
        return Err(ContractError::EmptyBalance);
    }
    let now = env.block.time;
    if now.nanos >= expire.nanos {
        return Err(ContractError::LowExpired);
    }
    let duration = expire.nanos - now.nanos;
    if duration as u128 >= store.state.max_lock_time as u128 * NANOS_PER_SECOND as u128 {
        return Err(ContractError::HighExpired);
    }
    let mut funds = GenericBalance::new();
    match funds.add_tokens(balance) {
        Ok(_) => {},
        Err(e) => {
            return Err(e);
        },
    }
    let lock = match Lock::new(sender.clone(), id.clone(), now, expire, funds, false) {
        Ok(lock) => lock,
        Err(e) => {
            return Err(e);
        },
    };
    match store.locks.insert_if_absent(lock) {
        Ok(_) => {},
        Err(e) => {
            return Err(e);
        },
    }
    let mut attributes: Vec<Attribute> = Vec::new();
    attributes.push(attr("action", "lock"));
    attributes.push(attr("from", sender.as_str()));
    attributes.push(attr("id", id.as_str()));
    assert(attr_views(attributes@) =~= seq![
        attribute("action"@, "lock"@),
        attribute("from"@, sender@),
        attribute("id"@, id@),
    ]);
    Ok(logged(attributes))
}

/// Adds `balance` to the lock of `sender` under `id`.
pub fn try_increase_lock(store: &mut Store, balance: Balance, sender: &String, id: String) -> (r:
    Result<Response, ContractError>)
    ensures
        meets(
            increase_effect(old(store)@, balance@, sender@, id@),
            old(store)@,
            final(store)@,
            r,
        ),
{
    if balance.is_empty() {
        return Err(ContractError::EmptyBalance);
    }
    let lock = match store.locks.get(sender, &id) {
        Ok(lock) => lock.clone(),
        Err(e) => {
            return Err(e);
        },
    };
    let lock = match lock.deposit(balance) {
        Ok(lock) => lock,
        Err(e) => {
            return Err(e);
        },
    };
    store.locks.put(lock);
    let mut attributes: Vec<Attribute> = Vec::new();
    attributes.push(attr("action", "increase_lock"));
    attributes.push(attr("from", sender.as_str()));
    attributes.push(attr("id", id.as_str()));
    assert(attr_views(attributes@) =~= seq![
        attribute("action"@, "increase_lock"@),
        attribute("from"@, sender@),
        attribute("id"@, id@),
    ]);
    Ok(logged(attributes))
}

/// Releases the lock of the caller under `id`, and hands back the messages
/// that pay its funds out to the caller.
pub fn try_unlock(store: &mut Store, env: Env, info: MessageInfo, id: String) -> (r: Result<
    Response,
    ContractError,
>)
    ensures
        meets(
            unlock_effect(old(store)@, env.block.time, info.sender@, id@),
            old(store)@,
            final(store)@,
            r,
        ),
{
    let lock = match store.locks.get(&info.sender, &id) {
        Ok(lock) => lock.clone(),
        Err(e) => {
            return Err(e);
        },
    };
    if lock.complete() {
        return Err(ContractError::LockComplete);
    }
    if env.block.time.nanos <= lock.expire().nanos {
        return Err(ContractError::LockNotExpired);
    }
    let messages = match send_tokens(&info.sender, lock.funds()) {
        Ok(messages) => messages,
        Err(e) => {
            return Err(e);
        },
    };
    store.locks.put(lock.released());
    let mut attributes: Vec<Attribute> = Vec::new();
    attributes.push(attr("action", "unlock"));
    attributes.push(attr("from", info.sender.as_str()));
    assert(attr_views(attributes@) =~= seq![
        attribute("action"@, "unlock"@),
        attribute("from"@, info.sender@),
    ]);
    Ok(Response { messages, attributes })
}

/// Takes the notice of a token deposit, sent by the token contract that
/// makes the call, and carries out what the depositor asks for.
pub fn try_recive(store: &mut Store, env: Env, info: MessageInfo, wrapper: Cw20ReceiveMsg) -> (r:
    Result<Response, ContractError>)
    ensures
        meets(
            receive_effect(old(store)@, env.block.time, info.sender@, wrapper),
            old(store)@,
            final(store)@,
            r,
        ),
{
    let Cw20ReceiveMsg { sender, amount, msg } = wrapper;
    let msg = match msg {
        Some(msg) => msg,
        None => {
            return Err(ContractError::MalformedPayload);
        },
    };
    let token = Cw20CoinVerified { address: info.sender, amount };
    assert(Balance::Cw20(token)@ == token_deposit(token.address@, amount));
    let balance = Balance::Cw20(token);
    match msg {
        ReceiveMsg::Lock { id, expire } => try_lock(store, env, balance, &sender, id, expire),
        ReceiveMsg::IncreaseLock { id } => try_increase_lock(store, balance, &sender, id),
    }
}

/// The message that asks the contract of `token` for a transfer, given the
/// outcome of encoding the request.
pub fn transfer_message(
    token: &Cw20CoinVerified,
    encoded: Result<Vec<u8>, cosmwasm_std::StdError>,
) -> (r: Result<CosmosMsg, ContractError>)
    ensures
        match encoded {
            Ok(payload) => r is Ok && r->Ok_0@ == (CosmosMsgView::Execute {
                contract_addr: token.address@,
                msg: payload@,
                send: Seq::empty(),
            }),
            Err(_) => r is Err && r->Err_0 == ContractError::Serialize,
        },
{
    match encoded {
        Ok(payload) => {
            let send: Vec<Coin> = Vec::new();
            assert(assets(send@) =~= Seq::empty());
            Ok(
                CosmosMsg::Wasm(
                    WasmMsg::Execute {
                        contract_addr: token.address.clone(),
                        msg: Binary(payload),
                        send,
                    },
                ),
            )
        },
        Err(_) => Err(ContractError::Serialize),
    }
}

/// The messages that pay `balance` out to `to`.
pub fn send_tokens(to: &String, balance: &GenericBalance) -> (r: Result<
    Vec<CosmosMsg>,
    ContractError,
>)
    ensures
        match r {
            Ok(msgs) => encodable(to@, balance@) && msg_views(msgs@) == transfer_msgs(
                to@,
                balance@,
            ),
            Err(e) => e == ContractError::Serialize && !encodable(to@, balance@),
        },
{
    let native = balance.native();
    let tokens = balance.cw20();
    let mut msgs: Vec<CosmosMsg> = Vec::new();
    if native.len() > 0 {
        msgs.push(CosmosMsg::Bank(BankMsg::Send { to_address: to.clone(), amount: converted(native) }));
    }
    let ghost bank = bank_msgs(to@, balance@.native);
    assert(msg_views(msgs@) =~= bank);
    let mut i: usize = 0;
    while i < tokens.len()
        invariant
            i <= tokens.len(),
            assets(tokens@) == balance@.cw20,
            bank == bank_msgs(to@, balance@.native),
            msg_views(msgs@) =~= bank + token_msgs(to@, balance@.cw20).take(i as int),
            forall|j: int|
                0 <= j < i ==> cw20_transfer_payload(
                    to@,
                    (#[trigger] balance@.cw20[j]).amount as u128,
                ) is Some,
        decreases tokens.len() - i,
    {
        let ghost token = balance@.cw20[i as int];
        let ghost sent = msg_views(msgs@);
        let ghost all = token_msgs(to@, balance@.cw20);
        assert(token == asset_of(tokens[i as int]));
        let encoded = encode_cw20_transfer(to, tokens[i].amount);
        match transfer_message(&tokens[i], encoded) {
            Ok(msg) => {
                assert(token.amount as u128 == tokens[i as int].amount);
                assert(msg@ == token_msg(to@, token));
                assert(all.take(i + 1) =~= all.take(i as int).push(token_msg(to@, token)));
                msgs.push(msg);
                assert(msg_views(msgs@) =~= sent.push(token_msg(to@, token)));
            },
            Err(e) => {
                return Err(e);
            },
        }
        i += 1;
    }
    assert(token_msgs(to@, balance@.cw20).take(i as int) =~= token_msgs(to@, balance@.cw20));
    Ok(msgs)
}

/// Answers a question.
pub fn query(store: &Store, _env: Env, msg: QueryMsg) -> (r: Result<QueryResponse, ContractError>)
    ensures
        match msg {
            QueryMsg::Lock { address, id } => match r {
                Ok(QueryResponse::Lock(info)) => contains_key(store@.locks, address@, id@)
                    && info@ == lookup(store@.locks, address@, id@),
                Ok(_) => false,
                Err(e) => e == ContractError::NotFound && !contains_key(
                    store@.locks,
                    address@,
                    id@,
                ),
            },
            QueryMsg::AllLocks { address } => match r {
                Ok(QueryResponse::AllLocks(all)) => all@ == owned_by(store@.locks, address@)
                    && ascending_ids(all@),
                _ => false,
            },
        },
{
    match msg {
        QueryMsg::Lock { address, id } => match query_lock(store, address, id) {
            Ok(info) => Ok(QueryResponse::Lock(info)),
            Err(e) => Err(e),
        },
        QueryMsg::AllLocks { address } => Ok(QueryResponse::AllLocks(query_locks(store, address))),
    }
}

/// What the lockbox says of the lock of `address` under `id`.
pub fn query_lock(store: &Store, address: String, id: String) -> (r: Result<
    LockInfo,
    ContractError,
>)
    ensures
        match r {
            Ok(info) => contains_key(store@.locks, address@, id@) && info@ == lookup(
                store@.locks,
                address@,
                id@,
            ),
            Err(e) => e == ContractError::NotFound && !contains_key(store@.locks, address@, id@),
        },
{
    match store.locks.get(&address, &id) {
        Ok(lock) => Ok(to_lock_info(lock)),
        Err(e) => Err(e),
    }
}

/// What the lockbox says of every lock of `address`, by ascending id.
pub fn query_locks(store: &Store, address: String) -> (r: AllLocksResponse)
    ensures
        r@ == owned_by(store@.locks, address@),
        ascending_ids(r@),
{
    let found = store.locks.scan_by_owner(&address);
    let mut locks: Vec<LockInfo> = Vec::new();
    let mut i: usize = 0;
    while i < found.len()
        invariant
            i <= found.len(),
            locks.len() == i,
            forall|j: int| 0 <= j < i ==> (#[trigger] locks@[j])@ == found@[j]@,
        decreases found.len() - i,
    {
        locks.push(to_lock_info(found[i]));
        i += 1;
    }
    assert(lock_info_views(locks@) =~= lock_ref_views(found@));
    AllLocksResponse { locks }
}

/// What the lockbox says of a lock.
pub fn to_lock_info(lock: &Lock) -> (r: LockInfo)
    ensures
        r@ == lock@,
{
    let native_balance: Vec<Coin> = converted(lock.funds().native());
    let cw20_balance: Vec<Cw20Coin> = converted(lock.funds().cw20());
    LockInfo {
        id: lock.id().clone(),
        owner: lock.owner().clone(),
        create: lock.create(),
        expire: lock.expire(),
        complete: lock.complete(),
        native_balance,
        cw20_balance,
    }
}

} // verus!
