//! What holds of the lockbox over all its calls.

use crate::asset::{
    amount_of, lemma_credit_all_amount, lemma_credit_all_normal, lemma_credit_all_total, normal,
    total, Asset, Funds,
};
use crate::contract::{
    encodable, execute_effect, increase_effect, lock_effect, native_deposit, token_deposit,
    unlock_effect, Effect,
};
use crate::error::ContractError;
use crate::msg::{ExecuteMsg, MessageInfo, ReceiveMsg};
use crate::state::{
    all_valid, ascending_ids, contains_key, index_of, lemma_inserted_lookup,
    lemma_inserted_sorted, lemma_inserted_valid, lemma_owned_by_ascending, lemma_owned_by_insert,
    lemma_owned_by_update, lemma_replaced_lookup, lemma_replaced_sorted, lemma_replaced_valid,
    lookup, owned_by, rank, replaced, sorted, LockView, LockboxView,
};
use crate::time::{Timestamp, NANOS_PER_SECOND};
use vstd::prelude::*;

verus! {

/// One call to the lockbox: when it is made, by whom and with which coins,
/// and what it asks for.
pub struct Call {
    pub now: Timestamp,
    pub info: MessageInfo,
    pub msg: ExecuteMsg,
}

/// The store after `call`: as the call leaves it, or unchanged where the
/// call is refused.
pub open spec fn step(store: LockboxView, call: Call) -> LockboxView {
    match execute_effect(store, call.now, call.info, call.msg) {
        Ok(done) => done.store,
        Err(_) => store,
    }
}

/// The store after all of `calls`, made in their order.
pub open spec fn run(store: LockboxView, calls: Seq<Call>) -> LockboxView
    decreases calls.len(),
{
    if calls.len() == 0 {
        store
    } else {
        step(run(store, calls.drop_last()), calls.last())
    }
}

/// `call` asks for a new lock of `owner`: with native coins, or with tokens.
pub open spec fn asks_lock_for(call: Call, owner: Seq<char>) -> bool {
    match call.msg {
        ExecuteMsg::Lock { .. } => call.info.sender@ == owner,
        ExecuteMsg::Receive(wrapper) => wrapper.msg matches Some(ReceiveMsg::Lock { .. })
            && wrapper.sender@ == owner,
        _ => false,
    }
}

/// How many of `calls`, made in their order from `store` on, made a new
/// lock of `owner`.
pub open spec fn locks_made(store: LockboxView, calls: Seq<Call>, owner: Seq<char>) -> nat
    decreases calls.len(),
{
    if calls.len() == 0 {
        0
    } else {
        let before = run(store, calls.drop_last());
        let call = calls.last();
        locks_made(store, calls.drop_last(), owner) + if asks_lock_for(call, owner)
            && execute_effect(before, call.now, call.info, call.msg) is Ok {
            1nat
        } else {
            0nat
        }
    }
}

/// A lock that is made leaves the locks in order, adds one to the locks of
/// its owner, and keeps every lock that was there.
proof fn lemma_lock_step(
    store: LockboxView,
    now: Timestamp,
    deposit: Funds,
    sender: Seq<char>,
    id: Seq<char>,
    expire: Timestamp,
    owner: Seq<char>,
    other: Seq<char>,
)
    requires
        sorted(store.locks),
        lock_effect(store, now, deposit, sender, id, expire) is Ok,
    ensures
        ({
            let after = lock_effect(store, now, deposit, sender, id, expire)->Ok_0.store;
            &&& sorted(after.locks)
            &&& after.state == store.state
            &&& owned_by(after.locks, owner).len() == owned_by(store.locks, owner).len()
                + if sender == owner {
                1nat
            } else {
                0nat
            }
            &&& contains_key(store.locks, owner, other) ==> contains_key(
                after.locks,
                owner,
                other,
            ) && lookup(after.locks, owner, other) == lookup(store.locks, owner, other)
        }),
{
    let lock = LockView {
        owner: sender,
        id,
        create: now,
        expire,
        funds: Funds::empty().merge(deposit),
        complete: false,
    };
    lemma_inserted_sorted(store.locks, lock);
    lemma_owned_by_insert(store.locks, rank(store.locks, sender, id), lock, owner);
    lemma_inserted_lookup(store.locks, lock, owner, other);
}

/// Replacing a lock by one with its key leaves the locks in order, leaves
/// every owner with as many locks, and keeps every other lock as it was.
proof fn lemma_replace_step(
    s: Seq<LockView>,
    lock: LockView,
    owner: Seq<char>,
    other: Seq<char>,
)
    requires
        sorted(s),
        contains_key(s, lock.owner, lock.id),
    ensures
        sorted(replaced(s, lock)),
        owned_by(replaced(s, lock), owner).len() == owned_by(s, owner).len(),
        contains_key(s, owner, other) ==> contains_key(replaced(s, lock), owner, other),
        contains_key(s, owner, other) && !lock.has_key(owner, other) ==> lookup(
            replaced(s, lock),
            owner,
            other,
        ) == lookup(s, owner, other),
        lookup(replaced(s, lock), lock.owner, lock.id) == lock,
{
    lemma_replaced_sorted(s, lock);
    lemma_owned_by_update(s, index_of(s, lock.owner, lock.id), lock, owner);
    lemma_replaced_lookup(s, lock, owner, other);
    lemma_replaced_lookup(s, lock, lock.owner, lock.id);
}

/// Whatever a call does, the locks stay in order, the configuration stays,
/// every lock that was there is still there, and the locks of an owner grow
/// by one exactly when the call made a lock of that owner.
pub proof fn law_step(store: LockboxView, call: Call, owner: Seq<char>, id: Seq<char>)
    requires
        sorted(store.locks),
    ensures
        sorted(step(store, call).locks),
        step(store, call).state == store.state,
        contains_key(store.locks, owner, id) ==> contains_key(step(store, call).locks, owner, id),
        owned_by(step(store, call).locks, owner).len() == owned_by(store.locks, owner).len()
            + if asks_lock_for(call, owner) && execute_effect(
            store,
            call.now,
            call.info,
            call.msg,
        ) is Ok {
            1nat
        } else {
            0nat
        },
{
    let effect = execute_effect(store, call.now, call.info, call.msg);
    if effect is Ok {
        let sender = call.info.sender@;
        match call.msg {
            ExecuteMsg::Lock { id: target, expire } => {
                lemma_lock_step(
                    store,
                    call.now,
                    native_deposit(call.info.funds@),
                    sender,
                    target@,
                    expire,
                    owner,
                    id,
                );
            },
            ExecuteMsg::IncreaseLock { id: target } => {
                let lock = lookup(store.locks, sender, target@);
                let deposit = native_deposit(call.info.funds@);
                lemma_replace_step(
                    store.locks,
                    LockView { funds: lock.funds.merge(deposit), ..lock },
                    owner,
                    id,
                );
            },
            ExecuteMsg::Unlock { id: target } => {
                let lock = lookup(store.locks, sender, target@);
                lemma_replace_step(store.locks, LockView { complete: true, ..lock }, owner, id);
            },
            ExecuteMsg::Receive(wrapper) => {
                let deposit = token_deposit(sender, wrapper.amount);
                match wrapper.msg {
                    Some(ReceiveMsg::Lock { id: target, expire }) => {
                        lemma_lock_step(
                            store,
                            call.now,
                            deposit,
                            wrapper.sender@,
                            target@,
                            expire,
                            owner,
                            id,
                        );
                    },
                    Some(ReceiveMsg::IncreaseLock { id: target }) => {
                        let lock = lookup(store.locks, wrapper.sender@, target@);
                        lemma_replace_step(
                            store.locks,
                            LockView { funds: lock.funds.merge(deposit), ..lock },
                            owner,
                            id,
                        );
                    },
                    None => {},
                }
            },
        }
    }
}

/// In a lockbox that started without locks, an owner has as many locks as
/// calls have made for that owner, whatever else was called in between; a
/// question about them is answered by ascending id.
pub proof fn law_locks_counted(start: LockboxView, calls: Seq<Call>, owner: Seq<char>)
    requires
        start.locks.len() == 0,
    ensures
        sorted(run(start, calls).locks),
        run(start, calls).state == start.state,
        owned_by(run(start, calls).locks, owner).len() == locks_made(start, calls, owner),
        ascending_ids(owned_by(run(start, calls).locks, owner)),
    decreases calls.len(),
{
    if calls.len() > 0 {
        law_locks_counted(start, calls.drop_last(), owner);
        law_step(run(start, calls.drop_last()), calls.last(), owner, Seq::empty());
    }
    lemma_owned_by_ascending(run(start, calls).locks, owner);
}

/// A key that is in use stays in use, whatever is called.
pub proof fn law_keys_stay(store: LockboxView, calls: Seq<Call>, owner: Seq<char>, id: Seq<char>)
    requires
        sorted(store.locks),
        contains_key(store.locks, owner, id),
    ensures
        sorted(run(store, calls).locks),
        contains_key(run(store, calls).locks, owner, id),
    decreases calls.len(),
{
    if calls.len() > 0 {
        law_keys_stay(store, calls.drop_last(), owner, id);
        law_step(run(store, calls.drop_last()), calls.last(), owner, id);
    }
}

/// A lock with a deposit, an expiry after the current time and a duration
/// under the longest permitted one is made when its key is free; from then
/// on the key is in use, and no further lock is made under it.
pub proof fn law_lock_once(
    store: LockboxView,
    now: Timestamp,
    deposit: Funds,
    sender: Seq<char>,
    id: Seq<char>,
    expire: Timestamp,
    later: Timestamp,
    again: Funds,
    until: Timestamp,
)
    requires
        sorted(store.locks),
        !contains_key(store.locks, sender, id),
        !deposit.is_empty(),
        !Funds::empty().merge_overflows(deposit),
        now.nanos < expire.nanos < now.nanos + store.state.max_lock_time * NANOS_PER_SECOND,
    ensures
        lock_effect(store, now, deposit, sender, id, expire) is Ok,
        ({
            let after = lock_effect(store, now, deposit, sender, id, expire)->Ok_0.store;
            &&& sorted(after.locks)
            &&& contains_key(after.locks, sender, id)
            &&& lookup(after.locks, sender, id) == (LockView {
                owner: sender,
                id,
                create: now,
                expire,
                funds: Funds::empty().merge(deposit),
                complete: false,
            })
            &&& lock_effect(after, later, again, sender, id, until) is Err
            &&& !again.is_empty() && !Funds::empty().merge_overflows(again) && later.nanos
                < until.nanos < later.nanos + after.state.max_lock_time * NANOS_PER_SECOND
                ==> lock_effect(after, later, again, sender, id, until) == Err::<
                Effect,
                ContractError,
            >(ContractError::AlreadyInUse)
        }),
{
    let lock = LockView {
        owner: sender,
        id,
        create: now,
        expire,
        funds: Funds::empty().merge(deposit),
        complete: false,
    };
    lemma_inserted_sorted(store.locks, lock);
    lemma_inserted_lookup(store.locks, lock, sender, id);
}

/// A key that is in use takes no new lock, whether its lock is open or
/// was released.
pub proof fn law_key_never_reused(
    store: LockboxView,
    now: Timestamp,
    deposit: Funds,
    sender: Seq<char>,
    id: Seq<char>,
    expire: Timestamp,
)
    requires
        contains_key(store.locks, sender, id),
    ensures
        lock_effect(store, now, deposit, sender, id, expire) is Err,
        !deposit.is_empty() && !Funds::empty().merge_overflows(deposit) && now.nanos
            < expire.nanos < now.nanos + store.state.max_lock_time * NANOS_PER_SECOND
            ==> lock_effect(store, now, deposit, sender, id, expire) == Err::<
            Effect,
            ContractError,
        >(ContractError::AlreadyInUse),
{
}

/// A lock that would expire at the current time is refused as too early; one
/// that would last exactly the longest permitted duration, as too long.
pub proof fn law_lock_bounds(
    store: LockboxView,
    now: Timestamp,
    deposit: Funds,
    sender: Seq<char>,
    id: Seq<char>,
    expire: Timestamp,
)
    requires
        !deposit.is_empty(),
    ensures
        expire.nanos == now.nanos ==> lock_effect(store, now, deposit, sender, id, expire)
            == Err::<Effect, ContractError>(ContractError::LowExpired),
        expire.nanos > now.nanos && expire.nanos - now.nanos == store.state.max_lock_time
            * NANOS_PER_SECOND ==> lock_effect(store, now, deposit, sender, id, expire) == Err::<
            Effect,
            ContractError,
        >(ContractError::HighExpired),
{
}

/// Adding to a lock adds to each of its assets what the deposit holds of
/// it, so no amount goes down, and the lock holds more in all than before.
/// Nothing else of the lock changes.
pub proof fn law_increase_adds(
    store: LockboxView,
    deposit: Funds,
    sender: Seq<char>,
    id: Seq<char>,
    name: Seq<char>,
)
    requires
        sorted(store.locks),
        increase_effect(store, deposit, sender, id) is Ok,
    ensures
        ({
            let before = lookup(store.locks, sender, id);
            let after = lookup(increase_effect(store, deposit, sender, id)->Ok_0.store.locks, sender, id);
            &&& after == (LockView { funds: after.funds, ..before })
            &&& amount_of(after.funds.native, name) == amount_of(before.funds.native, name)
                + amount_of(deposit.native, name)
            &&& amount_of(after.funds.cw20, name) == amount_of(before.funds.cw20, name)
                + amount_of(deposit.cw20, name)
            &&& total(after.funds.native) + total(after.funds.cw20) > total(before.funds.native)
                + total(before.funds.cw20)
        }),
{
    let before = lookup(store.locks, sender, id);
    let lock = LockView { funds: before.funds.merge(deposit), ..before };
    lemma_replaced_lookup(store.locks, lock, sender, id);
    lemma_credit_all_amount(before.funds.native, deposit.native, name);
    lemma_credit_all_amount(before.funds.cw20, deposit.cw20, name);
    lemma_credit_all_total(before.funds.native, deposit.native);
    lemma_credit_all_total(before.funds.cw20, deposit.cw20);
}

/// What funds hold of an asset after two deposits does not depend on the
/// order of the deposits.
pub proof fn law_merge_commutative(funds: Funds, a: Funds, b: Funds, name: Seq<char>)
    ensures
        amount_of(funds.merge(a).merge(b).native, name) == amount_of(
            funds.merge(b).merge(a).native,
            name,
        ),
        amount_of(funds.merge(a).merge(b).cw20, name) == amount_of(
            funds.merge(b).merge(a).cw20,
            name,
        ),
        amount_of(a.merge(b).native, name) == amount_of(b.merge(a).native, name),
        amount_of(a.merge(b).cw20, name) == amount_of(b.merge(a).cw20, name),
{
    lemma_credit_all_amount(funds.native, a.native, name);
    lemma_credit_all_amount(funds.merge(a).native, b.native, name);
    lemma_credit_all_amount(funds.native, b.native, name);
    lemma_credit_all_amount(funds.merge(b).native, a.native, name);
    lemma_credit_all_amount(funds.cw20, a.cw20, name);
    lemma_credit_all_amount(funds.merge(a).cw20, b.cw20, name);
    lemma_credit_all_amount(funds.cw20, b.cw20, name);
    lemma_credit_all_amount(funds.merge(b).cw20, a.cw20, name);
    lemma_credit_all_amount(a.native, b.native, name);
    lemma_credit_all_amount(b.native, a.native, name);
    lemma_credit_all_amount(a.cw20, b.cw20, name);
    lemma_credit_all_amount(b.cw20, a.cw20, name);
}

/// What funds hold of an asset after two deposits is what they hold after
/// one deposit of both together.
pub proof fn law_merge_associative(funds: Funds, a: Funds, b: Funds, name: Seq<char>)
    ensures
        amount_of(funds.merge(a).merge(b).native, name) == amount_of(
            funds.merge(a.merge(b)).native,
            name,
        ),
        amount_of(funds.merge(a).merge(b).cw20, name) == amount_of(
            funds.merge(a.merge(b)).cw20,
            name,
        ),
{
    lemma_credit_all_amount(funds.native, a.native, name);
    lemma_credit_all_amount(funds.merge(a).native, b.native, name);
    lemma_credit_all_amount(a.native, b.native, name);
    lemma_credit_all_amount(funds.native, a.merge(b).native, name);
    lemma_credit_all_amount(funds.cw20, a.cw20, name);
    lemma_credit_all_amount(funds.merge(a).cw20, b.cw20, name);
    lemma_credit_all_amount(a.cw20, b.cw20, name);
    lemma_credit_all_amount(funds.cw20, a.merge(b).cw20, name);
}

/// An open lock is not released at its expiry time. One nanosecond later
/// it is released, if a transfer can be encoded for each of its tokens;
/// that is so for every lock without tokens.
pub proof fn law_unlock_boundary(store: LockboxView, now: Timestamp, sender: Seq<char>, id: Seq<char>)
    requires
        contains_key(store.locks, sender, id),
        !lookup(store.locks, sender, id).complete,
    ensures
        now.nanos == lookup(store.locks, sender, id).expire.nanos ==> unlock_effect(
            store,
            now,
            sender,
            id,
        ) == Err::<Effect, ContractError>(ContractError::LockNotExpired),
        now.nanos == lookup(store.locks, sender, id).expire.nanos + 1 ==> (unlock_effect(
            store,
            now,
            sender,
            id,
        ) is Ok <==> encodable(sender, lookup(store.locks, sender, id).funds)),
        lookup(store.locks, sender, id).funds.cw20.len() == 0 ==> encodable(
            sender,
            lookup(store.locks, sender, id).funds,
        ),
{
}

/// Once a lock was released, every further release of it is refused as
/// completed, at whatever time, and so hands back no message. The released
/// lock keeps its funds on record.
pub proof fn law_unlock_once(
    store: LockboxView,
    now: Timestamp,
    sender: Seq<char>,
    id: Seq<char>,
    later: Timestamp,
)
    requires
        sorted(store.locks),
        unlock_effect(store, now, sender, id) is Ok,
    ensures
        ({
            let after = unlock_effect(store, now, sender, id)->Ok_0.store;
            &&& contains_key(after.locks, sender, id)
            &&& lookup(after.locks, sender, id) == (LockView {
                complete: true,
                ..lookup(store.locks, sender, id)
            })
            &&& unlock_effect(after, later, sender, id) == Err::<Effect, ContractError>(
                ContractError::LockComplete,
            )
        }),
{
    let lock = lookup(store.locks, sender, id);
    lemma_replaced_lookup(store.locks, LockView { complete: true, ..lock }, sender, id);
}

/// A released lock stays released, whatever is called.
pub proof fn law_completed_is_final(
    store: LockboxView,
    calls: Seq<Call>,
    owner: Seq<char>,
    id: Seq<char>,
)
    requires
        sorted(store.locks),
        contains_key(store.locks, owner, id),
        lookup(store.locks, owner, id).complete,
    ensures
        sorted(run(store, calls).locks),
        contains_key(run(store, calls).locks, owner, id),
        lookup(run(store, calls).locks, owner, id).complete,
    decreases calls.len(),
{
    if calls.len() > 0 {
        law_completed_is_final(store, calls.drop_last(), owner, id);
        lemma_completed_step(run(store, calls.drop_last()), calls.last(), owner, id);
    }
}

/// A released lock is still released after one more call.
proof fn lemma_completed_step(store: LockboxView, call: Call, owner: Seq<char>, id: Seq<char>)
    requires
        sorted(store.locks),
        contains_key(store.locks, owner, id),
        lookup(store.locks, owner, id).complete,
    ensures
        sorted(step(store, call).locks),
        contains_key(step(store, call).locks, owner, id),
        lookup(step(store, call).locks, owner, id).complete,
{
    law_step(store, call, owner, id);
    let effect = execute_effect(store, call.now, call.info, call.msg);
    if effect is Ok {
        let sender = call.info.sender@;
        match call.msg {
            ExecuteMsg::Lock { id: target, expire } => {
                lemma_lock_step(
                    store,
                    call.now,
                    native_deposit(call.info.funds@),
                    sender,
                    target@,
                    expire,
                    owner,
                    id,
                );
            },
            ExecuteMsg::IncreaseLock { id: target } => {
                let lock = lookup(store.locks, sender, target@);
                let deposit = native_deposit(call.info.funds@);
                lemma_replace_step(
                    store.locks,
                    LockView { funds: lock.funds.merge(deposit), ..lock },
                    owner,
                    id,
                );
            },
            ExecuteMsg::Unlock { id: target } => {
                let lock = lookup(store.locks, sender, target@);
                lemma_replace_step(store.locks, LockView { complete: true, ..lock }, owner, id);
            },
            ExecuteMsg::Receive(wrapper) => {
                let deposit = token_deposit(sender, wrapper.amount);
                match wrapper.msg {
                    Some(ReceiveMsg::Lock { id: target, expire }) => {
                        lemma_lock_step(
                            store,
                            call.now,
                            deposit,
                            wrapper.sender@,
                            target@,
                            expire,
                            owner,
                            id,
                        );
                    },
                    Some(ReceiveMsg::IncreaseLock { id: target }) => {
                        let lock = lookup(store.locks, wrapper.sender@, target@);
                        lemma_replace_step(
                            store.locks,
                            LockView { funds: lock.funds.merge(deposit), ..lock },
                            owner,
                            id,
                        );
                    },
                    None => {},
                }
            },
        }
    }
}

/// Funds that hold no entry of zero and no asset twice stay so when a
/// deposit is paid in, whatever the deposit holds; so do the funds that a
/// new lock is given.
pub proof fn law_funds_stay_normal(funds: Funds, deposit: Funds)
    requires
        funds.normal(),
    ensures
        funds.merge(deposit).normal(),
        Funds::empty().merge(deposit).normal(),
{
    lemma_credit_all_normal(funds.native, deposit.native);
    lemma_credit_all_normal(funds.cw20, deposit.cw20);
    assert(normal(Seq::<Asset>::empty()));
    lemma_credit_all_normal(Seq::empty(), deposit.native);
    lemma_credit_all_normal(Seq::empty(), deposit.cw20);
}

/// Whatever a call does, every lock still expires after it was made, and
/// the funds of every lock still hold no entry of zero and no asset twice.
pub proof fn law_locks_stay_valid(store: LockboxView, call: Call)
    requires
        sorted(store.locks),
        all_valid(store.locks),
    ensures
        all_valid(step(store, call).locks),
{
    let effect = execute_effect(store, call.now, call.info, call.msg);
    if effect is Ok {
        let sender = call.info.sender@;
        let coins = native_deposit(call.info.funds@);
        match call.msg {
            ExecuteMsg::Lock { id, expire } => {
                lemma_lock_valid(store, call.now, coins, sender, id@, expire);
            },
            ExecuteMsg::IncreaseLock { id } => {
                lemma_increase_valid(store, coins, sender, id@);
            },
            ExecuteMsg::Unlock { id } => {
                let lock = lookup(store.locks, sender, id@);
                assert(store.locks[index_of(store.locks, sender, id@)].valid());
                lemma_replaced_valid(store.locks, LockView { complete: true, ..lock });
            },
            ExecuteMsg::Receive(wrapper) => {
                let tokens = token_deposit(sender, wrapper.amount);
                match wrapper.msg {
                    Some(ReceiveMsg::Lock { id, expire }) => {
                        lemma_lock_valid(store, call.now, tokens, wrapper.sender@, id@, expire);
                    },
                    Some(ReceiveMsg::IncreaseLock { id }) => {
                        lemma_increase_valid(store, tokens, wrapper.sender@, id@);
                    },
                    None => {},
                }
            },
        }
    }
}

/// A lock that is made leaves valid locks valid.
proof fn lemma_lock_valid(
    store: LockboxView,
    now: Timestamp,
    deposit: Funds,
    sender: Seq<char>,
    id: Seq<char>,
    expire: Timestamp,
)
    requires
        sorted(store.locks),
        all_valid(store.locks),
        lock_effect(store, now, deposit, sender, id, expire) is Ok,
    ensures
        all_valid(lock_effect(store, now, deposit, sender, id, expire)->Ok_0.store.locks),
{
    let lock = LockView {
        owner: sender,
        id,
        create: now,
        expire,
        funds: Funds::empty().merge(deposit),
        complete: false,
    };
    law_funds_stay_normal(Funds::empty(), deposit);
    lemma_inserted_valid(store.locks, lock);
}

/// A deposit into a lock leaves valid locks valid.
proof fn lemma_increase_valid(
    store: LockboxView,
    deposit: Funds,
    sender: Seq<char>,
    id: Seq<char>,
)
    requires
        all_valid(store.locks),
        increase_effect(store, deposit, sender, id) is Ok,
    ensures
        all_valid(increase_effect(store, deposit, sender, id)->Ok_0.store.locks),
{
    let lock = lookup(store.locks, sender, id);
    assert(store.locks[index_of(store.locks, sender, id)].valid());
    law_funds_stay_normal(lock.funds, deposit);
    lemma_replaced_valid(store.locks, LockView { funds: lock.funds.merge(deposit), ..lock });
}

/// In a lockbox that started without locks, every lock expires after it
/// was made, and the funds of every lock hold no entry of zero and no asset
/// twice, whatever was called.
pub proof fn law_locks_always_valid(start: LockboxView, calls: Seq<Call>)
    requires
        start.locks.len() == 0,
    ensures
        sorted(run(start, calls).locks),
        all_valid(run(start, calls).locks),
    decreases calls.len(),
{
    if calls.len() > 0 {
        law_locks_always_valid(start, calls.drop_last());
        law_step(run(start, calls.drop_last()), calls.last(), Seq::empty(), Seq::empty());
        law_locks_stay_valid(run(start, calls.drop_last()), calls.last());
    }
}

} // verus!
