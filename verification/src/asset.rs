//! Amounts of named assets, as the contracts of the balance speak of them.

use vstd::prelude::*;

verus! {

/// An amount of the asset called `name`: a native denomination, or the
/// address of a token contract.
pub struct Asset {
    pub name: Seq<char>,
    pub amount: nat,
}

/// The sum of all amounts in `s`.
pub open spec fn total(s: Seq<Asset>) -> nat
    decreases s.len(),
{
    if s.len() == 0 {
        0
    } else {
        total(s.drop_last()) + s.last().amount
    }
}

/// The sum of the amounts that `s` holds of the asset `name`.
pub open spec fn amount_of(s: Seq<Asset>, name: Seq<char>) -> nat
    decreases s.len(),
{
    if s.len() == 0 {
        0
    } else if s.last().name == name {
        amount_of(s.drop_last(), name) + s.last().amount
    } else {
        amount_of(s.drop_last(), name)
    }
}

/// `s` has an entry for the asset `name`.
pub open spec fn holds(s: Seq<Asset>, name: Seq<char>) -> bool {
    exists|i: int| 0 <= i < s.len() && (#[trigger] s[i]).name == name
}

/// `i` is the place of the first entry of `s` for the asset `name`.
pub open spec fn is_first(s: Seq<Asset>, name: Seq<char>, i: int) -> bool {
    &&& 0 <= i < s.len()
    &&& s[i].name == name
    &&& forall|j: int| 0 <= j < i ==> (#[trigger] s[j]).name != name
}

/// The place of the first entry of `s` for the asset `name`, if there is one.
pub open spec fn first_index(s: Seq<Asset>, name: Seq<char>) -> int {
    choose|i: int| is_first(s, name, i)
}

/// No entry is zero and no asset has two entries.
pub open spec fn normal(s: Seq<Asset>) -> bool {
    &&& forall|i: int| 0 <= i < s.len() ==> (#[trigger] s[i]).amount > 0
    &&& forall|i: int, j: int|
        0 <= i < j < s.len() ==> (#[trigger] s[i]).name != (#[trigger] s[j]).name
}

/// Every amount fits in 128 bits.
pub open spec fn fits(s: Seq<Asset>) -> bool {
    forall|i: int| 0 <= i < s.len() ==> (#[trigger] s[i]).amount <= u128::MAX
}

/// `s` after `a` was paid in: the amount goes to the entry of its asset, or
/// to a new entry at the end. Nothing is stored for an amount of zero.
pub open spec fn credit(s: Seq<Asset>, a: Asset) -> Seq<Asset> {
    if a.amount == 0 {
        s
    } else if holds(s, a.name) {
        let i = first_index(s, a.name);
        s.update(i, Asset { name: a.name, amount: s[i].amount + a.amount })
    } else {
        s.push(a)
    }
}

/// `s` after every entry of `adds` was paid in, in their order.
pub open spec fn credit_all(s: Seq<Asset>, adds: Seq<Asset>) -> Seq<Asset>
    decreases adds.len(),
{
    if adds.len() == 0 {
        s
    } else {
        credit(credit_all(s, adds.drop_last()), adds.last())
    }
}

/// Paying `adds` into `base` would take some asset beyond 128 bits.
pub open spec fn overflows(base: Seq<Asset>, adds: Seq<Asset>) -> bool {
    exists|name: Seq<char>| amount_of(base, name) + #[trigger] amount_of(adds, name) > u128::MAX
}

/// What a lock holds, or what a deposit brings: native coins by
/// denomination, and tokens by the address of their contract.
pub struct Funds {
    pub native: Seq<Asset>,
    pub cw20: Seq<Asset>,
}

impl Funds {
    /// Funds without any entry.
    pub open spec fn empty() -> Funds {
        Funds { native: Seq::empty(), cw20: Seq::empty() }
    }

    /// There is nothing of any asset.
    pub open spec fn is_empty(self) -> bool {
        total(self.native) == 0 && total(self.cw20) == 0
    }

    /// No entry is zero, and no denomination and no token has two entries.
    pub open spec fn normal(self) -> bool {
        normal(self.native) && normal(self.cw20)
    }

    /// These funds after `other` was paid in.
    pub open spec fn merge(self, other: Funds) -> Funds {
        Funds {
            native: credit_all(self.native, other.native),
            cw20: credit_all(self.cw20, other.cw20),
        }
    }

    /// Paying `other` into these funds would take some asset beyond 128 bits.
    pub open spec fn merge_overflows(self, other: Funds) -> bool {
        overflows(self.native, other.native) || overflows(self.cw20, other.cw20)
    }
}

proof fn lemma_least_entry(s: Seq<Asset>, name: Seq<char>, i: int)
    requires
        0 <= i < s.len(),
        s[i].name == name,
    ensures
        exists|k: int| is_first(s, name, k),
    decreases i,
{
    if forall|j: int| 0 <= j < i ==> (#[trigger] s[j]).name != name {
        assert(is_first(s, name, i));
    } else {
        let j = choose|j: int| 0 <= j < i && (#[trigger] s[j]).name == name;
        lemma_least_entry(s, name, j);
    }
}

/// An asset that `s` holds has a first entry, and `first_index` is its place.
pub proof fn lemma_first_index(s: Seq<Asset>, name: Seq<char>)
    requires
        holds(s, name),
    ensures
        is_first(s, name, first_index(s, name)),
{
    let i = choose|i: int| 0 <= i < s.len() && (#[trigger] s[i]).name == name;
    lemma_least_entry(s, name, i);
}

/// The first entry of an asset is found at one place only.
pub proof fn lemma_first_index_is(s: Seq<Asset>, name: Seq<char>, i: int)
    requires
        is_first(s, name, i),
    ensures
        holds(s, name),
        first_index(s, name) == i,
{
    let c = first_index(s, name);
    assert(is_first(s, name, c));
    if c < i {
        assert(s[c].name != name);
    }
    if i < c {
        assert(s[i].name != name);
    }
}

/// What `s` holds of an asset after one more entry was put at its end.
pub proof fn lemma_amount_of_push(s: Seq<Asset>, a: Asset, name: Seq<char>)
    ensures
        amount_of(s.push(a), name) == amount_of(s, name) + if a.name == name {
            a.amount
        } else {
            0
        },
{
    assert(s.push(a).drop_last() =~= s);
}

/// What `s` holds of an asset after the entry at `i` was replaced by `x`.
pub proof fn lemma_amount_of_update(s: Seq<Asset>, i: int, x: Asset, name: Seq<char>)
    requires
        0 <= i < s.len(),
    ensures
        amount_of(s.update(i, x), name) + (if s[i].name == name {
            s[i].amount
        } else {
            0
        }) == amount_of(s, name) + if x.name == name {
            x.amount
        } else {
            0
        },
    decreases s.len(),
{
    let t = s.update(i, x);
    if i == s.len() - 1 {
        assert(t.drop_last() =~= s.drop_last());
    } else {
        assert(t.drop_last() =~= s.drop_last().update(i, x));
        lemma_amount_of_update(s.drop_last(), i, x, name);
    }
}

/// An asset without an entry has the amount zero.
pub proof fn lemma_amount_of_absent(s: Seq<Asset>, name: Seq<char>)
    requires
        !holds(s, name),
    ensures
        amount_of(s, name) == 0,
    decreases s.len(),
{
    if s.len() > 0 {
        assert(s[s.len() - 1].name != name);
        assert forall|i: int| 0 <= i < s.drop_last().len() implies (#[trigger] s.drop_last()[i]).name
            != name by {
            assert(s[i].name != name);
        }
        lemma_amount_of_absent(s.drop_last(), name);
    }
}

/// In a normal sequence an asset's amount is that of its one entry.
pub proof fn lemma_amount_of_entry(s: Seq<Asset>, i: int)
    requires
        normal(s),
        0 <= i < s.len(),
    ensures
        amount_of(s, s[i].name) == s[i].amount,
    decreases s.len(),
{
    let name = s[i].name;
    let rest = s.drop_last();
    assert(normal(rest)) by {
        assert forall|k: int| 0 <= k < rest.len() implies (#[trigger] rest[k]).amount > 0 by {
            assert(s[k].amount > 0);
        }
        assert forall|k: int, l: int| 0 <= k < l < rest.len() implies (#[trigger] rest[k]).name != (
        #[trigger] rest[l]).name by {
            assert(s[k].name != s[l].name);
        }
    }
    if i == s.len() - 1 {
        assert(!holds(rest, name)) by {
            if holds(rest, name) {
                let k = choose|k: int| 0 <= k < rest.len() && (#[trigger] rest[k]).name == name;
                assert(s[k].name != s[i].name);
            }
        }
        lemma_amount_of_absent(rest, name);
    } else {
        assert(s[i].name != s[s.len() - 1].name);
        assert(rest[i] == s[i]);
        lemma_amount_of_entry(rest, i);
    }
}

/// A beginning of `s` holds no more of an asset than `s` does.
pub proof fn lemma_amount_of_prefix(s: Seq<Asset>, k: int, name: Seq<char>)
    requires
        0 <= k <= s.len(),
    ensures
        amount_of(s.take(k), name) <= amount_of(s, name),
    decreases s.len(),
{
    if k == s.len() {
        assert(s.take(k) =~= s);
    } else {
        assert(s.drop_last().take(k) =~= s.take(k));
        lemma_amount_of_prefix(s.drop_last(), k, name);
    }
}

/// The total is zero exactly when every entry is zero.
pub proof fn lemma_total_zero(s: Seq<Asset>)
    ensures
        total(s) == 0 <==> forall|i: int| 0 <= i < s.len() ==> (#[trigger] s[i]).amount == 0,
    decreases s.len(),
{
    if s.len() > 0 {
        let rest = s.drop_last();
        lemma_total_zero(rest);
        if total(s) == 0 {
            assert forall|i: int| 0 <= i < s.len() implies (#[trigger] s[i]).amount == 0 by {
                if i < s.len() - 1 {
                    assert(rest[i].amount == 0);
                }
            }
        }
        if forall|i: int| 0 <= i < s.len() ==> (#[trigger] s[i]).amount == 0 {
            assert(s[s.len() - 1].amount == 0);
            assert forall|i: int| 0 <= i < rest.len() implies (#[trigger] rest[i]).amount == 0 by {
                assert(s[i].amount == 0);
            }
        }
    }
}

/// Paying in adds the amount to the asset that was paid, and to no other.
pub proof fn lemma_credit_amount(s: Seq<Asset>, a: Asset, name: Seq<char>)
    ensures
        amount_of(credit(s, a), name) == amount_of(s, name) + if a.name == name {
            a.amount
        } else {
            0
        },
{
    if a.amount == 0 {
    } else if holds(s, a.name) {
        lemma_first_index(s, a.name);
        let i = first_index(s, a.name);
        lemma_amount_of_update(
            s,
            i,
            Asset { name: a.name, amount: s[i].amount + a.amount },
            name,
        );
    } else {
        lemma_amount_of_push(s, a, name);
    }
}

/// Paying in several entries adds of each asset what the entries hold of it.
pub proof fn lemma_credit_all_amount(s: Seq<Asset>, adds: Seq<Asset>, name: Seq<char>)
    ensures
        amount_of(credit_all(s, adds), name) == amount_of(s, name) + amount_of(adds, name),
    decreases adds.len(),
{
    if adds.len() > 0 {
        lemma_credit_all_amount(s, adds.drop_last(), name);
        lemma_credit_amount(credit_all(s, adds.drop_last()), adds.last(), name);
    }
}

/// Paying into a normal sequence leaves it normal.
pub proof fn lemma_credit_normal(s: Seq<Asset>, a: Asset)
    requires
        normal(s),
    ensures
        normal(credit(s, a)),
{
    let t = credit(s, a);
    if a.amount == 0 {
    } else if holds(s, a.name) {
        lemma_first_index(s, a.name);
        let i = first_index(s, a.name);
        assert forall|k: int| 0 <= k < t.len() implies (#[trigger] t[k]).amount > 0 by {
            assert(s[k].amount > 0);
        }
        assert forall|k: int, l: int| 0 <= k < l < t.len() implies (#[trigger] t[k]).name != (
        #[trigger] t[l]).name by {
            assert(s[k].name != s[l].name);
        }
    } else {
        assert forall|k: int| 0 <= k < t.len() implies (#[trigger] t[k]).amount > 0 by {
            if k < s.len() {
                assert(s[k].amount > 0);
            }
        }
        assert forall|k: int, l: int| 0 <= k < l < t.len() implies (#[trigger] t[k]).name != (
        #[trigger] t[l]).name by {
            if l < s.len() {
                assert(s[k].name != s[l].name);
            } else {
                assert(s[k].name != a.name);
            }
        }
    }
}

/// Paying several entries into a normal sequence leaves it normal.
pub proof fn lemma_credit_all_normal(s: Seq<Asset>, adds: Seq<Asset>)
    requires
        normal(s),
    ensures
        normal(credit_all(s, adds)),
    decreases adds.len(),
{
    if adds.len() > 0 {
        lemma_credit_all_normal(s, adds.drop_last());
        lemma_credit_normal(credit_all(s, adds.drop_last()), adds.last());
    }
}

/// What `s` holds in all after one more entry was put at its end.
pub proof fn lemma_total_push(s: Seq<Asset>, a: Asset)
    ensures
        total(s.push(a)) == total(s) + a.amount,
{
    assert(s.push(a).drop_last() =~= s);
}

/// What `s` holds in all after the entry at `i` was replaced by `x`.
pub proof fn lemma_total_update(s: Seq<Asset>, i: int, x: Asset)
    requires
        0 <= i < s.len(),
    ensures
        total(s.update(i, x)) + s[i].amount == total(s) + x.amount,
    decreases s.len(),
{
    let t = s.update(i, x);
    if i == s.len() - 1 {
        assert(t.drop_last() =~= s.drop_last());
    } else {
        assert(t.drop_last() =~= s.drop_last().update(i, x));
        lemma_total_update(s.drop_last(), i, x);
    }
}

/// Paying in several entries adds their total to the total.
pub proof fn lemma_credit_all_total(s: Seq<Asset>, adds: Seq<Asset>)
    ensures
        total(credit_all(s, adds)) == total(s) + total(adds),
    decreases adds.len(),
{
    if adds.len() > 0 {
        let mid = credit_all(s, adds.drop_last());
        let a = adds.last();
        lemma_credit_all_total(s, adds.drop_last());
        if a.amount == 0 {
        } else if holds(mid, a.name) {
            lemma_first_index(mid, a.name);
            let i = first_index(mid, a.name);
            lemma_total_update(mid, i, Asset { name: a.name, amount: mid[i].amount + a.amount });
        } else {
            lemma_total_push(mid, a);
        }
    }
}

/// A normal sequence whose amounts fit holds of no asset more than fits.
pub proof fn lemma_normal_fits(s: Seq<Asset>, name: Seq<char>)
    requires
        normal(s),
        fits(s),
    ensures
        amount_of(s, name) <= u128::MAX,
{
    if holds(s, name) {
        let i = choose|i: int| 0 <= i < s.len() && (#[trigger] s[i]).name == name;
        lemma_amount_of_entry(s, i);
    } else {
        lemma_amount_of_absent(s, name);
    }
}

/// A normal sequence is empty exactly when its total is zero.
pub proof fn lemma_normal_total(s: Seq<Asset>)
    requires
        normal(s),
    ensures
        total(s) == 0 <==> s.len() == 0,
{
    lemma_total_zero(s);
    if s.len() > 0 {
        assert(s[0].amount > 0);
    }
}

} // verus!
