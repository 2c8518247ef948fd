//! What the lockbox keeps: its configuration and the locks, each under the
//! key made of its owner and its id.

use crate::asset::Funds;
use crate::balance::{Balance, GenericBalance};
use crate::error::ContractError;
use crate::order::{
    lemma_text_lt_asymmetric, lemma_text_lt_irreflexive, lemma_text_lt_total,
    lemma_text_lt_transitive, str_lt, text_lt,
};
use crate::time::Timestamp;
use vstd::prelude::*;

verus! {

/// The configuration, fixed when the lockbox is set up.
#[derive(Clone, Debug, PartialEq, Eq)]
pub struct State {
    /// A lock must last less than this many seconds.
    pub max_lock_time: u64,
    /// Who set the lockbox up.
    pub owner: String,
}

/// A [`State`] as the contracts speak of it.
pub struct StateView {
    pub max_lock_time: u64,
    pub owner: Seq<char>,
}

impl View for State {
    type V = StateView;

    open spec fn view(&self) -> StateView {
        StateView { max_lock_time: self.max_lock_time, owner: self.owner@ }
    }
}

/// A [`Lock`] as the contracts speak of it.
pub struct LockView {
    pub owner: Seq<char>,
    pub id: Seq<char>,
    pub create: Timestamp,
    pub expire: Timestamp,
    pub funds: Funds,
    pub complete: bool,
}

/// The key `(owner_a, id_a)` comes strictly before the key `(owner_b, id_b)`:
/// by owner first, then by id.
pub open spec fn key_lt(
    owner_a: Seq<char>,
    id_a: Seq<char>,
    owner_b: Seq<char>,
    id_b: Seq<char>,
) -> bool {
    text_lt(owner_a, owner_b) || (owner_a == owner_b && text_lt(id_a, id_b))
}

impl LockView {
    /// The lock stands under the key `(owner, id)`.
    pub open spec fn has_key(self, owner: Seq<char>, id: Seq<char>) -> bool {
        self.owner == owner && self.id == id
    }

    /// The lock's key comes strictly before the key `(owner, id)`.
    pub open spec fn before_key(self, owner: Seq<char>, id: Seq<char>) -> bool {
        key_lt(self.owner, self.id, owner, id)
    }

    /// The lock's key comes strictly after the key `(owner, id)`.
    pub open spec fn after_key(self, owner: Seq<char>, id: Seq<char>) -> bool {
        key_lt(owner, id, self.owner, self.id)
    }

    /// The lock's key comes strictly before that of `other`.
    pub open spec fn before(self, other: LockView) -> bool {
        key_lt(self.owner, self.id, other.owner, other.id)
    }

    /// The lock expires after it was made, and its funds hold no entry of
    /// zero and no asset twice.
    pub open spec fn valid(self) -> bool {
        self.create.nanos < self.expire.nanos && self.funds.normal()
    }
}

/// No key comes before itself.
pub proof fn lemma_key_lt_irreflexive(owner: Seq<char>, id: Seq<char>)
    ensures
        !key_lt(owner, id, owner, id),
{
    lemma_text_lt_irreflexive(owner);
    lemma_text_lt_irreflexive(id);
}

/// The order of keys is transitive.
pub proof fn lemma_key_lt_transitive(
    owner_a: Seq<char>,
    id_a: Seq<char>,
    owner_b: Seq<char>,
    id_b: Seq<char>,
    owner_c: Seq<char>,
    id_c: Seq<char>,
)
    requires
        key_lt(owner_a, id_a, owner_b, id_b),
        key_lt(owner_b, id_b, owner_c, id_c),
    ensures
        key_lt(owner_a, id_a, owner_c, id_c),
{
    if text_lt(owner_a, owner_b) && text_lt(owner_b, owner_c) {
        lemma_text_lt_transitive(owner_a, owner_b, owner_c);
    }
    if owner_a == owner_b && owner_b == owner_c {
        lemma_text_lt_irreflexive(owner_a);
        lemma_text_lt_transitive(id_a, id_b, id_c);
    }
}

/// If one key comes before another, the second does not come before the first.
pub proof fn lemma_key_lt_asymmetric(
    owner_a: Seq<char>,
    id_a: Seq<char>,
    owner_b: Seq<char>,
    id_b: Seq<char>,
)
    requires
        key_lt(owner_a, id_a, owner_b, id_b),
    ensures
        !key_lt(owner_b, id_b, owner_a, id_a),
{
    if key_lt(owner_b, id_b, owner_a, id_a) {
        lemma_key_lt_transitive(owner_a, id_a, owner_b, id_b, owner_a, id_a);
        lemma_key_lt_irreflexive(owner_a, id_a);
    }
}

/// Of two different keys one comes before the other.
pub proof fn lemma_key_lt_total(
    owner_a: Seq<char>,
    id_a: Seq<char>,
    owner_b: Seq<char>,
    id_b: Seq<char>,
)
    ensures
        key_lt(owner_a, id_a, owner_b, id_b) || key_lt(owner_b, id_b, owner_a, id_a) || (owner_a
            == owner_b && id_a == id_b),
{
    lemma_text_lt_total(owner_a, owner_b);
    lemma_text_lt_total(id_a, id_b);
}

/// The locks stand in the strict order of their keys, so no key occurs twice.
pub open spec fn sorted(s: Seq<LockView>) -> bool {
    forall|i: int, j: int| 0 <= i < j < s.len() ==> (#[trigger] s[i]).before(#[trigger] s[j])
}

/// Every lock is valid.
pub open spec fn all_valid(s: Seq<LockView>) -> bool {
    forall|i: int| 0 <= i < s.len() ==> (#[trigger] s[i]).valid()
}

/// There is a lock under the key `(owner, id)`.
pub open spec fn contains_key(s: Seq<LockView>, owner: Seq<char>, id: Seq<char>) -> bool {
    exists|i: int| 0 <= i < s.len() && (#[trigger] s[i]).has_key(owner, id)
}

/// The place of the lock under the key `(owner, id)`, if there is one.
pub open spec fn index_of(s: Seq<LockView>, owner: Seq<char>, id: Seq<char>) -> int {
    choose|i: int| 0 <= i < s.len() && (#[trigger] s[i]).has_key(owner, id)
}

/// The lock under the key `(owner, id)`, if there is one.
pub open spec fn lookup(s: Seq<LockView>, owner: Seq<char>, id: Seq<char>) -> LockView {
    s[index_of(s, owner, id)]
}

/// `p` is where a lock under the key `(owner, id)` belongs: all before `p`
/// have smaller keys, all from `p` on have greater ones.
pub open spec fn is_rank(s: Seq<LockView>, owner: Seq<char>, id: Seq<char>, p: int) -> bool {
    &&& 0 <= p <= s.len()
    &&& forall|i: int| 0 <= i < p ==> (#[trigger] s[i]).before_key(owner, id)
    &&& forall|i: int| p <= i < s.len() ==> (#[trigger] s[i]).after_key(owner, id)
}

/// Where a lock under the key `(owner, id)`, which `s` does not hold, belongs.
pub open spec fn rank(s: Seq<LockView>, owner: Seq<char>, id: Seq<char>) -> int {
    choose|p: int| is_rank(s, owner, id, p)
}

/// `s` with `lock` put in at the place of its key.
pub open spec fn inserted(s: Seq<LockView>, lock: LockView) -> Seq<LockView> {
    s.insert(rank(s, lock.owner, lock.id), lock)
}

/// `s` with `lock` in the place of the lock that has its key.
pub open spec fn replaced(s: Seq<LockView>, lock: LockView) -> Seq<LockView> {
    s.update(index_of(s, lock.owner, lock.id), lock)
}

/// The locks of `owner`, in the order in which `s` holds them.
pub open spec fn owned_by(s: Seq<LockView>, owner: Seq<char>) -> Seq<LockView>
    decreases s.len(),
{
    if s.len() == 0 {
        Seq::empty()
    } else if s.last().owner == owner {
        owned_by(s.drop_last(), owner).push(s.last())
    } else {
        owned_by(s.drop_last(), owner)
    }
}

/// The ids strictly ascend.
pub open spec fn ascending_ids(s: Seq<LockView>) -> bool {
    forall|i: int, j: int|
        0 <= i < j < s.len() ==> text_lt((#[trigger] s[i]).id, (#[trigger] s[j]).id)
}

/// In sorted locks a key is found at one place only.
pub proof fn lemma_index_of(s: Seq<LockView>, owner: Seq<char>, id: Seq<char>, i: int)
    requires
        sorted(s),
        0 <= i < s.len(),
        s[i].has_key(owner, id),
    ensures
        contains_key(s, owner, id),
        index_of(s, owner, id) == i,
        lookup(s, owner, id) == s[i],
{
    let c = index_of(s, owner, id);
    assert(s[c].has_key(owner, id));
    lemma_key_lt_irreflexive(owner, id);
    if c < i {
        assert(s[c].before(s[i]));
    }
    if i < c {
        assert(s[i].before(s[c]));
    }
}

/// Where a key belongs is one place only, and then no lock has that key.
pub proof fn lemma_rank(s: Seq<LockView>, owner: Seq<char>, id: Seq<char>, p: int)
    requires
        is_rank(s, owner, id, p),
    ensures
        rank(s, owner, id) == p,
        !contains_key(s, owner, id),
{
    let c = rank(s, owner, id);
    assert(is_rank(s, owner, id, c));
    if c < p {
        assert(s[c].before_key(owner, id) && s[c].after_key(owner, id));
        lemma_key_lt_asymmetric(s[c].owner, s[c].id, owner, id);
    }
    if p < c {
        assert(s[p].before_key(owner, id) && s[p].after_key(owner, id));
        lemma_key_lt_asymmetric(s[p].owner, s[p].id, owner, id);
    }
    if contains_key(s, owner, id) {
        let i = index_of(s, owner, id);
        lemma_key_lt_irreflexive(owner, id);
        assert(s[i].before_key(owner, id) || s[i].after_key(owner, id));
    }
}

/// In sorted locks, a place `p` such that all before it have smaller keys
/// and the lock at `p`, if any, has no smaller key, either holds the key or
/// is where the key belongs.
pub proof fn lemma_found_or_rank(s: Seq<LockView>, owner: Seq<char>, id: Seq<char>, p: int)
    requires
        sorted(s),
        0 <= p <= s.len(),
        forall|i: int| 0 <= i < p ==> (#[trigger] s[i]).before_key(owner, id),
        p < s.len() ==> !s[p].before_key(owner, id),
    ensures
        p < s.len() && s[p].has_key(owner, id) ==> contains_key(s, owner, id) && index_of(
            s,
            owner,
            id,
        ) == p,
        !(p < s.len() && s[p].has_key(owner, id)) ==> is_rank(s, owner, id, p) && !contains_key(
            s,
            owner,
            id,
        ),
{
    if p < s.len() && s[p].has_key(owner, id) {
        lemma_index_of(s, owner, id, p);
    } else {
        assert forall|i: int| p <= i < s.len() implies (#[trigger] s[i]).after_key(owner, id) by {
            lemma_key_lt_total(s[p].owner, s[p].id, owner, id);
            if p < i {
                assert(s[p].before(s[i]));
                lemma_key_lt_transitive(owner, id, s[p].owner, s[p].id, s[i].owner, s[i].id);
            }
        }
        lemma_rank(s, owner, id, p);
    }
}

/// Putting a lock in at the place of its key keeps the locks sorted.
pub proof fn lemma_inserted_sorted(s: Seq<LockView>, lock: LockView)
    requires
        sorted(s),
        !contains_key(s, lock.owner, lock.id),
    ensures
        is_rank(s, lock.owner, lock.id, rank(s, lock.owner, lock.id)),
        sorted(inserted(s, lock)),
{
    lemma_rank_exists(s, lock.owner, lock.id, 0);
    let p = rank(s, lock.owner, lock.id);
    let t = inserted(s, lock);
    assert forall|i: int, j: int| 0 <= i < j < t.len() implies (#[trigger] t[i]).before(
        #[trigger] t[j],
    ) by {
        if j < p {
            assert(s[i].before(s[j]));
        } else if j == p {
            assert(s[i].before_key(lock.owner, lock.id));
        } else if i < p {
            assert(s[i].before(s[j - 1]));
        } else if i == p {
            assert(s[j - 1].after_key(lock.owner, lock.id));
        } else {
            assert(s[i - 1].before(s[j - 1]));
        }
    }
}

/// In sorted locks that do not hold a key, the key belongs somewhere.
proof fn lemma_rank_exists(s: Seq<LockView>, owner: Seq<char>, id: Seq<char>, p: int)
    requires
        sorted(s),
        !contains_key(s, owner, id),
        0 <= p <= s.len(),
        forall|i: int| 0 <= i < p ==> (#[trigger] s[i]).before_key(owner, id),
    ensures
        is_rank(s, owner, id, rank(s, owner, id)),
    decreases s.len() - p,
{
    if p < s.len() && s[p].before_key(owner, id) {
        lemma_rank_exists(s, owner, id, p + 1);
    } else {
        lemma_found_or_rank(s, owner, id, p);
    }
}

/// Replacing a lock by one with the same key keeps the locks sorted.
pub proof fn lemma_replaced_sorted(s: Seq<LockView>, lock: LockView)
    requires
        sorted(s),
        contains_key(s, lock.owner, lock.id),
    ensures
        sorted(replaced(s, lock)),
{
    let p = index_of(s, lock.owner, lock.id);
    let t = replaced(s, lock);
    assert forall|i: int, j: int| 0 <= i < j < t.len() implies (#[trigger] t[i]).before(
        #[trigger] t[j],
    ) by {
        assert(s[i].before(s[j]));
    }
}

/// Every lock among those of an owner is a lock of `s`, and has that owner.
pub proof fn lemma_owned_by_members(s: Seq<LockView>, owner: Seq<char>)
    ensures
        forall|i: int|
            0 <= i < owned_by(s, owner).len() ==> (#[trigger] owned_by(s, owner)[i]).owner
                == owner && s.contains(owned_by(s, owner)[i]),
    decreases s.len(),
{
    if s.len() > 0 {
        let rest = s.drop_last();
        lemma_owned_by_members(rest, owner);
        let r = owned_by(s, owner);
        assert forall|i: int| 0 <= i < r.len() implies (#[trigger] r[i]).owner == owner
            && s.contains(r[i]) by {
            if i < owned_by(rest, owner).len() {
                let x = owned_by(rest, owner)[i];
                assert(rest.contains(x));
                let k = choose|k: int| 0 <= k < rest.len() && rest[k] == x;
                assert(s[k] == x);
            } else {
                assert(s[s.len() - 1] == r[i]);
            }
        }
    }
}

/// The locks of one owner, taken from sorted locks, ascend by id.
pub proof fn lemma_owned_by_ascending(s: Seq<LockView>, owner: Seq<char>)
    requires
        sorted(s),
    ensures
        ascending_ids(owned_by(s, owner)),
    decreases s.len(),
{
    if s.len() > 0 {
        let rest = s.drop_last();
        assert(sorted(rest)) by {
            assert forall|i: int, j: int| 0 <= i < j < rest.len() implies (#[trigger] rest[i]).before(
                #[trigger] rest[j],
            ) by {
                assert(s[i].before(s[j]));
            }
        }
        lemma_owned_by_ascending(rest, owner);
        lemma_owned_by_members(rest, owner);
        let r = owned_by(s, owner);
        let before = owned_by(rest, owner);
        assert forall|i: int, j: int| 0 <= i < j < r.len() implies text_lt(
            (#[trigger] r[i]).id,
            (#[trigger] r[j]).id,
        ) by {
            if j < before.len() {
                assert(text_lt(before[i].id, before[j].id));
            } else {
                let x = before[i];
                assert(rest.contains(x));
                let k = choose|k: int| 0 <= k < rest.len() && rest[k] == x;
                assert(s[k].before(s[s.len() - 1]));
                lemma_text_lt_irreflexive(owner);
            }
        }
    }
}

/// After a lock was put in, it is found under its key, and every other key
/// leads to what it led to before.
pub proof fn lemma_inserted_lookup(
    s: Seq<LockView>,
    lock: LockView,
    owner: Seq<char>,
    id: Seq<char>,
)
    requires
        sorted(s),
        !contains_key(s, lock.owner, lock.id),
    ensures
        contains_key(inserted(s, lock), owner, id) == (lock.has_key(owner, id) || contains_key(
            s,
            owner,
            id,
        )),
        lock.has_key(owner, id) ==> lookup(inserted(s, lock), owner, id) == lock,
        contains_key(s, owner, id) ==> lookup(inserted(s, lock), owner, id) == lookup(
            s,
            owner,
            id,
        ),
{
    lemma_inserted_sorted(s, lock);
    let p = rank(s, lock.owner, lock.id);
    let t = inserted(s, lock);
    assert(t[p] == lock);
    if lock.has_key(owner, id) {
        lemma_index_of(t, owner, id, p);
    }
    if contains_key(s, owner, id) {
        let k = index_of(s, owner, id);
        let k2 = if k < p {
            k
        } else {
            k + 1
        };
        assert(t[k2] == s[k]);
        lemma_index_of(t, owner, id, k2);
    }
    if contains_key(t, owner, id) && !lock.has_key(owner, id) {
        let j = index_of(t, owner, id);
        if j < p {
            assert(s[j].has_key(owner, id));
        } else {
            assert(s[j - 1].has_key(owner, id));
        }
    }
}

/// After a lock was replaced, the new one is found under its key, and every
/// other key leads to what it led to before.
pub proof fn lemma_replaced_lookup(
    s: Seq<LockView>,
    lock: LockView,
    owner: Seq<char>,
    id: Seq<char>,
)
    requires
        sorted(s),
        contains_key(s, lock.owner, lock.id),
    ensures
        contains_key(replaced(s, lock), owner, id) == contains_key(s, owner, id),
        lock.has_key(owner, id) ==> lookup(replaced(s, lock), owner, id) == lock,
        !lock.has_key(owner, id) && contains_key(s, owner, id) ==> lookup(
            replaced(s, lock),
            owner,
            id,
        ) == lookup(s, owner, id),
{
    lemma_replaced_sorted(s, lock);
    let p = index_of(s, lock.owner, lock.id);
    let t = replaced(s, lock);
    assert(t[p] == lock);
    lemma_index_of(t, lock.owner, lock.id, p);
    if contains_key(s, owner, id) && !lock.has_key(owner, id) {
        let k = index_of(s, owner, id);
        assert(t[k] == s[k]);
        lemma_index_of(t, owner, id, k);
    }
    if contains_key(t, owner, id) && !lock.has_key(owner, id) {
        let j = index_of(t, owner, id);
        assert(s[j].has_key(owner, id));
    }
}

/// A lock put in anywhere adds one to the locks of its owner, and nothing
/// to those of another.
pub proof fn lemma_owned_by_insert(s: Seq<LockView>, p: int, lock: LockView, owner: Seq<char>)
    requires
        0 <= p <= s.len(),
    ensures
        owned_by(s.insert(p, lock), owner).len() == owned_by(s, owner).len() + if lock.owner
            == owner {
            1nat
        } else {
            0nat
        },
    decreases s.len(),
{
    let t = s.insert(p, lock);
    if p == s.len() {
        assert(t.drop_last() =~= s);
    } else {
        assert(t.drop_last() =~= s.drop_last().insert(p, lock));
        assert(t.last() == s.last());
        lemma_owned_by_insert(s.drop_last(), p, lock, owner);
    }
}

/// A lock replaced by one of the same owner leaves the number of locks of
/// every owner as it was.
pub proof fn lemma_owned_by_update(s: Seq<LockView>, p: int, lock: LockView, owner: Seq<char>)
    requires
        0 <= p < s.len(),
        s[p].owner == lock.owner,
    ensures
        owned_by(s.update(p, lock), owner).len() == owned_by(s, owner).len(),
    decreases s.len(),
{
    let t = s.update(p, lock);
    if p == s.len() - 1 {
        assert(t.drop_last() =~= s.drop_last());
    } else {
        assert(t.drop_last() =~= s.drop_last().update(p, lock));
        assert(t.last() == s.last());
        lemma_owned_by_update(s.drop_last(), p, lock, owner);
    }
}

/// Locks of which none belongs to `owner` hold no lock of `owner`.
pub proof fn lemma_owned_by_none(s: Seq<LockView>, owner: Seq<char>)
    requires
        forall|i: int| 0 <= i < s.len() ==> (#[trigger] s[i]).owner != owner,
    ensures
        owned_by(s, owner) == Seq::<LockView>::empty(),
    decreases s.len(),
{
    if s.len() > 0 {
        assert(s[s.len() - 1].owner != owner);
        assert forall|i: int| 0 <= i < s.drop_last().len() implies (#[trigger] s.drop_last()[i]).owner
            != owner by {
            assert(s[i].owner != owner);
        }
        lemma_owned_by_none(s.drop_last(), owner);
    }
}

/// Locks that all belong to `owner` are the locks of `owner`.
pub proof fn lemma_owned_by_all(s: Seq<LockView>, owner: Seq<char>)
    requires
        forall|i: int| 0 <= i < s.len() ==> (#[trigger] s[i]).owner == owner,
    ensures
        owned_by(s, owner) == s,
    decreases s.len(),
{
    if s.len() > 0 {
        assert(s[s.len() - 1].owner == owner);
        assert forall|i: int| 0 <= i < s.drop_last().len() implies (#[trigger] s.drop_last()[i]).owner
            == owner by {
            assert(s[i].owner == owner);
        }
        lemma_owned_by_all(s.drop_last(), owner);
        assert(s.drop_last().push(s.last()) =~= s);
    } else {
        assert(s =~= Seq::<LockView>::empty());
    }
}

/// The locks of `owner` among two runs of locks, one after the other, are
/// those among the first, then those among the second.
pub proof fn lemma_owned_by_concat(a: Seq<LockView>, b: Seq<LockView>, owner: Seq<char>)
    ensures
        owned_by(a + b, owner) == owned_by(a, owner) + owned_by(b, owner),
    decreases b.len(),
{
    if b.len() == 0 {
        assert(a + b =~= a);
        assert(owned_by(a, owner) + owned_by(b, owner) =~= owned_by(a, owner));
    } else {
        assert((a + b).drop_last() =~= a + b.drop_last());
        assert((a + b).last() == b.last());
        lemma_owned_by_concat(a, b.drop_last(), owner);
        let x = owned_by(a, owner);
        let y = owned_by(b.drop_last(), owner);
        assert((x + y).push(b.last()) =~= x + y.push(b.last()));
    }
}

/// In sorted locks the locks of an owner stand together: where the locks
/// before `start` have keys under every key of `owner`, the locks from
/// `start` up to `end` belong to `owner` and the lock at `end` does not,
/// the locks of `owner` are those from `start` up to `end`.
proof fn lemma_owner_block(s: Seq<LockView>, owner: Seq<char>, start: int, end: int)
    requires
        sorted(s),
        0 <= start <= end <= s.len(),
        forall|i: int| 0 <= i < start ==> (#[trigger] s[i]).before_key(owner, Seq::empty()),
        start < s.len() ==> !s[start].before_key(owner, Seq::empty()),
        forall|i: int| start <= i < end ==> (#[trigger] s[i]).owner == owner,
        end < s.len() ==> s[end].owner != owner,
    ensures
        owned_by(s, owner) == s.subrange(start, end),
{
    let nothing = Seq::<char>::empty();
    let a = s.subrange(0, start);
    let b = s.subrange(start, end);
    let c = s.subrange(end, s.len() as int);
    assert(s =~= a + b + c);
    lemma_text_lt_irreflexive(owner);
    assert forall|i: int| 0 <= i < a.len() implies (#[trigger] a[i]).owner != owner by {
        assert(s[i].before_key(owner, nothing));
        assert(!text_lt(s[i].id, nothing));
    }
    assert forall|i: int| 0 <= i < c.len() implies (#[trigger] c[i]).owner != owner by {
        let k = end + i;
        let first = s[end];
        assert(text_lt(owner, first.owner)) by {
            if start < end {
                assert(s[start].before(first));
            } else {
                assert(!text_lt(first.id, nothing));
                lemma_text_lt_total(owner, first.owner);
            }
        }
        if end < k {
            assert(first.before(s[k]));
            if s[k].owner == owner {
                lemma_text_lt_asymmetric(owner, first.owner);
            }
        }
    }
    lemma_owned_by_none(a, owner);
    lemma_owned_by_all(b, owner);
    lemma_owned_by_none(c, owner);
    lemma_owned_by_concat(a, b, owner);
    lemma_owned_by_concat(a + b, c, owner);
    assert(Seq::<LockView>::empty() + b + Seq::<LockView>::empty() =~= b);
}

/// Valid locks with one more valid lock put in are valid locks.
pub proof fn lemma_inserted_valid(s: Seq<LockView>, lock: LockView)
    requires
        sorted(s),
        !contains_key(s, lock.owner, lock.id),
        all_valid(s),
        lock.valid(),
    ensures
        all_valid(inserted(s, lock)),
{
    lemma_inserted_sorted(s, lock);
    let p = rank(s, lock.owner, lock.id);
    let t = inserted(s, lock);
    assert forall|i: int| 0 <= i < t.len() implies (#[trigger] t[i]).valid() by {
        if i < p {
            assert(s[i].valid());
        } else if i > p {
            assert(s[i - 1].valid());
        }
    }
}

/// Valid locks with one replaced by a valid lock are valid locks.
pub proof fn lemma_replaced_valid(s: Seq<LockView>, lock: LockView)
    requires
        contains_key(s, lock.owner, lock.id),
        all_valid(s),
        lock.valid(),
    ensures
        all_valid(replaced(s, lock)),
{
    let p = index_of(s, lock.owner, lock.id);
    let t = replaced(s, lock);
    assert forall|i: int| 0 <= i < t.len() implies (#[trigger] t[i]).valid() by {
        if i != p {
            assert(s[i].valid());
        }
    }
}

/// One escrow position: funds bound to an owner and an id until a time.
#[derive(Debug, PartialEq, Eq)]
pub struct Lock {
    owner: String,
    id: String,
    create: Timestamp,
    expire: Timestamp,
    funds: GenericBalance,
    complete: bool,
}

impl View for Lock {
    type V = LockView;

    closed spec fn view(&self) -> LockView {
        LockView {
            owner: self.owner@,
            id: self.id@,
            create: self.create,
            expire: self.expire,
            funds: self.funds@,
            complete: self.complete,
        }
    }
}

impl Lock {
    /// What holds of every lock at all times.
    #[verifier::type_invariant]
    pub closed spec fn inv(self) -> bool {
        self.create.nanos < self.expire.nanos && self.funds.inv()
    }

    /// A lock expires after it was made, and its funds hold no entry of
    /// zero and no asset twice.
    pub proof fn lemma_valid(self)
        requires
            self.inv(),
        ensures
            self@.valid(),
    {
        self.funds.lemma_normal();
    }

    /// A lock of `owner` under `id`, made at `create`, that holds `funds`
    /// until `expire`. A lock must expire after it was made.
    pub fn new(
        owner: String,
        id: String,
        create: Timestamp,
        expire: Timestamp,
        funds: GenericBalance,
        complete: bool,
    ) -> (r: Result<Lock, ContractError>)
        ensures
            match r {
                Ok(lock) => create.nanos < expire.nanos && lock@ == (LockView {
                    owner: owner@,
                    id: id@,
                    create,
                    expire,
                    funds: funds@,
                    complete,
                }),
                Err(e) => e == ContractError::LowExpired && expire.nanos <= create.nanos,
            },
    {
        if expire.nanos <= create.nanos {
            return Err(ContractError::LowExpired);
        }
        proof {
            use_type_invariant(&funds);
        }
        Ok(Lock { owner, id, create, expire, funds, complete })
    }

    /// Who may withdraw.
    pub fn owner(&self) -> (r: &String)
        ensures
            r@ == self@.owner,
    {
        &self.owner
    }

    /// The id, which no other lock of the owner has.
    pub fn id(&self) -> (r: &String)
        ensures
            r@ == self@.id,
    {
        &self.id
    }

    /// When the lock was made.
    pub fn create(&self) -> (r: Timestamp)
        ensures
            r == self@.create,
    {
        self.create
    }

    /// The time after which the funds can be withdrawn. It is later than
    /// the time at which the lock was made.
    pub fn expire(&self) -> (r: Timestamp)
        ensures
            r == self@.expire,
            self@.valid(),
    {
        proof {
            use_type_invariant(self);
            self.lemma_valid();
        }
        self.expire
    }

    /// What the lock holds.
    pub fn funds(&self) -> (r: &GenericBalance)
        ensures
            r@ == self@.funds,
    {
        &self.funds
    }

    /// Whether the funds were withdrawn.
    pub fn complete(&self) -> (r: bool)
        ensures
            r == self@.complete,
    {
        self.complete
    }

    /// The lock after `add` was paid in. Fails, when an amount would grow
    /// beyond 128 bits.
    pub fn deposit(self, add: Balance) -> (r: Result<Lock, ContractError>)
        ensures
            match r {
                Ok(lock) => lock@ == (LockView { funds: self@.funds.merge(add@), ..self@ })
                    && !self@.funds.merge_overflows(add@),
                Err(e) => e == ContractError::Overflow && self@.funds.merge_overflows(add@),
            },
    {
        proof {
            use_type_invariant(&self);
        }
        let mut funds = self.funds;
        match funds.add_tokens(add) {
            Ok(_) => {
                proof {
                    use_type_invariant(&funds);
                }
                Ok(
                    Lock {
                        owner: self.owner,
                        id: self.id,
                        create: self.create,
                        expire: self.expire,
                        funds,
                        complete: self.complete,
                    },
                )
            },
            Err(e) => Err(e),
        }
    }

    /// The lock after its funds were withdrawn. The funds stay on record.
    pub fn released(self) -> (r: Lock)
        ensures
            r@ == (LockView { complete: true, ..self@ }),
    {
        proof {
            use_type_invariant(&self);
        }
        Lock {
            owner: self.owner,
            id: self.id,
            create: self.create,
            expire: self.expire,
            funds: self.funds,
            complete: true,
        }
    }
}

impl Clone for Lock {
    fn clone(&self) -> (r: Self)
        ensures
            r@ == self@,
    {
        proof {
            use_type_invariant(self);
        }
        let funds = self.funds.duplicate();
        proof {
            use_type_invariant(&funds);
        }
        Lock {
            owner: self.owner.clone(),
            id: self.id.clone(),
            create: self.create,
            expire: self.expire,
            funds,
            complete: self.complete,
        }
    }
}

/// The locks that a list holds, in its order.
pub open spec fn lock_views(s: Seq<Lock>) -> Seq<LockView> {
    Seq::new(s.len(), |i: int| s[i]@)
}

/// The locks that a list points to, in its order.
pub open spec fn lock_ref_views(s: Seq<&Lock>) -> Seq<LockView> {
    Seq::new(s.len(), |i: int| s[i]@)
}

/// Whether the key of `lock` comes strictly before the key `(owner, id)`.
fn lock_before_key(lock: &Lock, owner: &String, id: &String) -> (r: bool)
    ensures
        r == lock@.before_key(owner@, id@),
{
    str_lt(lock.owner.as_str(), owner.as_str()) || (lock.owner == *owner && str_lt(
        lock.id.as_str(),
        id.as_str(),
    ))
}

/// The ledger: every lock under the key made of its owner and its id, in
/// the order of the keys.
#[derive(Debug, PartialEq, Eq)]
pub struct Locks {
    entries: Vec<Lock>,
}

impl View for Locks {
    type V = Seq<LockView>;

    closed spec fn view(&self) -> Seq<LockView> {
        lock_views(self.entries@)
    }
}

impl Locks {
    #[verifier::type_invariant]
    spec fn inv(self) -> bool {
        sorted(lock_views(self.entries@)) && all_valid(lock_views(self.entries@))
    }

    /// A ledger without locks.
    pub fn new() -> (r: Locks)
        ensures
            r@ == Seq::<LockView>::empty(),
    {
        let r = Locks { entries: Vec::new() };
        assert(lock_views(r.entries@) =~= Seq::<LockView>::empty());
        r
    }

    /// All locks, in the order of their keys. Each of them is valid.
    pub fn entries(&self) -> (r: &Vec<Lock>)
        ensures
            lock_views(r@) == self@,
            sorted(self@),
            all_valid(self@),
    {
        proof {
            use_type_invariant(self);
        }
        &self.entries
    }

    /// The first place whose lock has no smaller key than `(owner, id)`.
    fn position(&self, owner: &String, id: &String) -> (p: usize)
        ensures
            sorted(self@),
            p <= self@.len(),
            forall|i: int| 0 <= i < p ==> (#[trigger] self@[i]).before_key(owner@, id@),
            p < self@.len() ==> !self@[p as int].before_key(owner@, id@),
    {
        proof {
            use_type_invariant(self);
        }
        let ghost s = lock_views(self.entries@);
        let mut lo: usize = 0;
        let mut hi: usize = self.entries.len();
        while lo < hi
            invariant
                s == lock_views(self.entries@),
                sorted(s),
                lo <= hi <= s.len(),
                forall|i: int| 0 <= i < lo ==> (#[trigger] s[i]).before_key(owner@, id@),
                hi < s.len() ==> !s[hi as int].before_key(owner@, id@),
            decreases hi - lo,
        {
            let mid = lo + (hi - lo) / 2;
            if lock_before_key(&self.entries[mid], owner, id) {
                assert forall|i: int| 0 <= i < mid + 1 implies (#[trigger] s[i]).before_key(
                    owner@,
                    id@,
                ) by {
                    if i < mid {
                        assert(s[i].before(s[mid as int]));
                        lemma_key_lt_transitive(
                            s[i].owner,
                            s[i].id,
                            s[mid as int].owner,
                            s[mid as int].id,
                            owner@,
                            id@,
                        );
                    }
                }
                lo = mid + 1;
            } else {
                hi = mid;
            }
        }
        lo
    }

    /// The lock of `owner` under `id`.
    pub fn get(&self, owner: &String, id: &String) -> (r: Result<&Lock, ContractError>)
        ensures
            match r {
                Ok(lock) => contains_key(self@, owner@, id@) && lock@ == lookup(
                    self@,
                    owner@,
                    id@,
                ),
                Err(e) => e == ContractError::NotFound && !contains_key(self@, owner@, id@),
            },
    {
        let p = self.position(owner, id);
        proof {
            lemma_found_or_rank(self@, owner@, id@, p as int);
        }
        if p < self.entries.len() && self.entries[p].owner == *owner && self.entries[p].id == *id {
            Ok(&self.entries[p])
        } else {
            Err(ContractError::NotFound)
        }
    }

    /// Puts `lock` in, unless there is a lock under its key already.
    pub fn insert_if_absent(&mut self, lock: Lock) -> (r: Result<(), ContractError>)
        ensures
            match r {
                Ok(_) => !contains_key(old(self)@, lock@.owner, lock@.id) && final(self)@
                    == inserted(old(self)@, lock@),
                Err(e) => e == ContractError::AlreadyInUse && contains_key(
                    old(self)@,
                    lock@.owner,
                    lock@.id,
                ) && final(self)@ == old(self)@,
            },
    {
        let p = self.position(&lock.owner, &lock.id);
        proof {
            lemma_found_or_rank(self@, lock@.owner, lock@.id, p as int);
        }
        if p < self.entries.len() && self.entries[p].owner == lock.owner && self.entries[p].id
            == lock.id {
            return Err(ContractError::AlreadyInUse);
        }
        proof {
            use_type_invariant(&*self);
            use_type_invariant(&lock);
            lock.lemma_valid();
            lemma_rank(self@, lock@.owner, lock@.id, p as int);
            lemma_inserted_sorted(self@, lock@);
            lemma_inserted_valid(self@, lock@);
        }
        let ghost before = self@;
        let ghost added = lock@;
        let mut entries: Vec<Lock> = Vec::new();
        std::mem::swap(&mut entries, &mut self.entries);
        entries.insert(p, lock);
        assert(lock_views(entries@) =~= inserted(before, added));
        self.entries = entries;
        Ok(())
    }

    /// Puts `lock` in, in the place of the lock under its key if there is one.
    pub fn put(&mut self, lock: Lock)
        ensures
            final(self)@ == if contains_key(old(self)@, lock@.owner, lock@.id) {
                replaced(old(self)@, lock@)
            } else {
                inserted(old(self)@, lock@)
            },
    {
        let p = self.position(&lock.owner, &lock.id);
        let found = p < self.entries.len() && self.entries[p].owner == lock.owner
            && self.entries[p].id == lock.id;
        let ghost before = self@;
        let ghost added = lock@;
        proof {
            use_type_invariant(&*self);
            use_type_invariant(&lock);
            lock.lemma_valid();
            lemma_found_or_rank(before, added.owner, added.id, p as int);
            if found {
                lemma_replaced_sorted(before, added);
                lemma_replaced_valid(before, added);
            } else {
                lemma_rank(before, added.owner, added.id, p as int);
                lemma_inserted_sorted(before, added);
                lemma_inserted_valid(before, added);
            }
        }
        let mut entries: Vec<Lock> = Vec::new();
        std::mem::swap(&mut entries, &mut self.entries);
        if found {
            entries.set(p, lock);
            assert(lock_views(entries@) =~= replaced(before, added));
        } else {
            entries.insert(p, lock);
            assert(lock_views(entries@) =~= inserted(before, added));
        }
        self.entries = entries;
    }

    /// The locks of `owner`, by ascending id.
    pub fn scan_by_owner(&self, owner: &String) -> (r: Vec<&Lock>)
        ensures
            lock_ref_views(r@) == owned_by(self@, owner@),
            ascending_ids(lock_ref_views(r@)),
    {
        proof {
            use_type_invariant(self);
            lemma_owned_by_ascending(self@, owner@);
        }
        let ghost s = lock_views(self.entries@);
        let least = String::new();
        let start = self.position(owner, &least);
        let mut out: Vec<&Lock> = Vec::new();
        let mut i: usize = start;
        while i < self.entries.len() && self.entries[i].owner == *owner
            invariant
                s == lock_views(self.entries@),
                start <= i <= s.len(),
                lock_ref_views(out@) =~= s.subrange(start as int, i as int),
                forall|j: int| start <= j < i ==> (#[trigger] s[j]).owner == owner@,
            decreases s.len() - i,
        {
            let ghost found = lock_ref_views(out@);
            out.push(&self.entries[i]);
            assert(lock_ref_views(out@) =~= found.push(s[i as int]));
            assert(s.subrange(start as int, i + 1) =~= s.subrange(start as int, i as int).push(
                s[i as int],
            ));
            i += 1;
        }
        proof {
            lemma_owner_block(s, owner@, start as int, i as int);
        }
        out
    }
}

impl Clone for Locks {
    fn clone(&self) -> (r: Self)
        ensures
            r@ == self@,
    {
        proof {
            use_type_invariant(self);
        }
        let mut entries: Vec<Lock> = Vec::new();
        let mut i: usize = 0;
        while i < self.entries.len()
            invariant
                i <= self.entries.len(),
                entries.len() == i,
                forall|j: int| 0 <= j < i ==> (#[trigger] entries@[j])@ == self.entries@[j]@,
            decreases self.entries.len() - i,
        {
            entries.push(self.entries[i].clone());
            i += 1;
        }
        assert(lock_views(entries@) =~= lock_views(self.entries@));
        Locks { entries }
    }
}

/// Everything the lockbox keeps.
#[derive(Clone, Debug, PartialEq, Eq)]
pub struct Store {
    pub state: State,
    pub locks: Locks,
}

/// A [`Store`] as the contracts speak of it.
pub struct LockboxView {
    pub state: StateView,
    pub locks: Seq<LockView>,
}

impl View for Store {
    type V = LockboxView;

    open spec fn view(&self) -> LockboxView {
        LockboxView { state: self.state@, locks: self.locks@ }
    }
}

} // verus!
