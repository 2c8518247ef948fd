//! Coins, token amounts, deposits, and the funds of a lock.

use crate::asset::{
    amount_of, credit, credit_all, fits, holds, is_first, lemma_amount_of_absent,
    lemma_amount_of_entry, lemma_amount_of_prefix, lemma_credit_all_amount, lemma_credit_normal,
    lemma_first_index_is, lemma_normal_fits, lemma_normal_total, lemma_total_zero, normal,
    overflows, total, Asset, Funds,
};
use crate::error::ContractError;
use vstd::prelude::*;

verus! {

/// Something that is held as an amount under a name.
pub trait Fungible: Sized {
    /// The name of the asset.
    spec fn name_spec(&self) -> Seq<char>;

    /// How much of it there is.
    spec fn amount_spec(&self) -> u128;

    /// The name of the asset.
    fn name(&self) -> (n: &String)
        ensures
            n@ == self.name_spec(),
    ;

    /// How much of it there is.
    fn amount(&self) -> (a: u128)
        ensures
            a == self.amount_spec(),
    ;

    /// The item that stands for `amount` of the asset called `name`.
    fn of(name: String, amount: u128) -> (r: Self)
        ensures
            r.name_spec() == name@,
            r.amount_spec() == amount,
    ;
}

/// The asset that an item stands for.
pub open spec fn asset_of<T: Fungible>(x: T) -> Asset {
    Asset { name: x.name_spec(), amount: x.amount_spec() as nat }
}

/// The assets that a list of items stands for, in its order.
pub open spec fn assets<T: Fungible>(s: Seq<T>) -> Seq<Asset> {
    Seq::new(s.len(), |i: int| asset_of(s[i]))
}

/// An amount of native coins of one denomination.
#[derive(Debug, PartialEq, Eq)]
pub struct Coin {
    pub denom: String,
    pub amount: u128,
}

/// An amount of the token whose contract has the address `address`.
#[derive(Debug, PartialEq, Eq)]
pub struct Cw20CoinVerified {
    pub address: String,
    pub amount: u128,
}

impl Fungible for Coin {
    open spec fn name_spec(&self) -> Seq<char> {
        self.denom@
    }

    open spec fn amount_spec(&self) -> u128 {
        self.amount
    }

    fn name(&self) -> (n: &String) {
        &self.denom
    }

    fn amount(&self) -> (a: u128) {
        self.amount
    }

    fn of(name: String, amount: u128) -> (r: Self) {
        Coin { denom: name, amount }
    }
}

impl Fungible for Cw20CoinVerified {
    open spec fn name_spec(&self) -> Seq<char> {
        self.address@
    }

    open spec fn amount_spec(&self) -> u128 {
        self.amount
    }

    fn name(&self) -> (n: &String) {
        &self.address
    }

    fn amount(&self) -> (a: u128) {
        self.amount
    }

    fn of(name: String, amount: u128) -> (r: Self) {
        Cw20CoinVerified { address: name, amount }
    }
}

impl View for Coin {
    type V = Asset;

    open spec fn view(&self) -> Asset {
        asset_of(*self)
    }
}

impl View for Cw20CoinVerified {
    type V = Asset;

    open spec fn view(&self) -> Asset {
        asset_of(*self)
    }
}

impl Clone for Coin {
    fn clone(&self) -> (r: Self)
        ensures
            r == *self,
    {
        Coin { denom: self.denom.clone(), amount: self.amount }
    }
}

impl Clone for Cw20CoinVerified {
    fn clone(&self) -> (r: Self)
        ensures
            r == *self,
    {
        Cw20CoinVerified { address: self.address.clone(), amount: self.amount }
    }
}

/// Whether the items of `list` add up to nothing.
fn nothing_in<T: Fungible>(list: &Vec<T>) -> (r: bool)
    ensures
        r == (total(assets(list@)) == 0),
{
    let mut i: usize = 0;
    while i < list.len()
        invariant
            i <= list.len(),
            forall|j: int| 0 <= j < i ==> (#[trigger] assets(list@)[j]).amount == 0,
        decreases list.len() - i,
    {
        if list[i].amount() != 0 {
            proof {
                lemma_total_zero(assets(list@));
                assert(assets(list@)[i as int].amount != 0);
            }
            return false;
        }
        i += 1;
    }
    proof {
        lemma_total_zero(assets(list@));
    }
    true
}

/// `amount` coins of the denomination `denom`.
pub fn coin(amount: u128, denom: &str) -> (r: Coin)
    ensures
        r@ == (Asset { name: denom@, amount: amount as nat }),
{
    Coin { denom: denom.to_owned(), amount }
}

/// A list of one entry: `amount` coins of the denomination `denom`.
pub fn coins(amount: u128, denom: &str) -> (r: Vec<Coin>)
    ensures
        assets(r@) == seq![Asset { name: denom@, amount: amount as nat }],
{
    let mut r: Vec<Coin> = Vec::new();
    r.push(coin(amount, denom));
    assert(assets(r@) =~= seq![Asset { name: denom@, amount: amount as nat }]);
    r
}

/// What comes with a call: native coins, or an amount of one token.
#[derive(Clone, Debug, PartialEq, Eq)]
pub enum Balance {
    Native(Vec<Coin>),
    Cw20(Cw20CoinVerified),
}

impl View for Balance {
    type V = Funds;

    open spec fn view(&self) -> Funds {
        match self {
            Balance::Native(coins) => Funds { native: assets(coins@), cw20: Seq::empty() },
            Balance::Cw20(token) => Funds { native: Seq::empty(), cw20: seq![asset_of(*token)] },
        }
    }
}

impl Balance {
    /// Whether the deposit brings nothing: no coin, or coins of amount zero
    /// only, or a token amount of zero.
    pub fn is_empty(&self) -> (r: bool)
        ensures
            r == self@.is_empty(),
    {
        match self {
            Balance::Native(coins) => nothing_in(coins),
            Balance::Cw20(token) => {
                proof {
                    let s = seq![asset_of(*token)];
                    lemma_total_zero(s);
                    assert(s[0].amount == token.amount);
                }
                token.amount == 0
            },
        }
    }
}

/// The place of the first item of `list` that is called `name`.
fn find<T: Fungible>(list: &Vec<T>, name: &String) -> (r: Option<usize>)
    ensures
        match r {
            Some(i) => is_first(assets(list@), name@, i as int),
            None => !holds(assets(list@), name@),
        },
{
    let mut i: usize = 0;
    while i < list.len()
        invariant
            i <= list.len(),
            forall|j: int| 0 <= j < i ==> (#[trigger] assets(list@)[j]).name != name@,
        decreases list.len() - i,
    {
        if *list[i].name() == *name {
            return Some(i);
        }
        i += 1;
    }
    None
}

/// The items of `list`, each as an item of another kind, in their order.
pub fn converted<T: Fungible, U: Fungible>(list: &Vec<T>) -> (r: Vec<U>)
    ensures
        assets(r@) == assets(list@),
{
    let mut out: Vec<U> = Vec::new();
    let mut i: usize = 0;
    while i < list.len()
        invariant
            i <= list.len(),
            out.len() == i,
            forall|j: int| 0 <= j < i ==> asset_of(#[trigger] out@[j]) == asset_of(list@[j]),
        decreases list.len() - i,
    {
        out.push(U::of(list[i].name().clone(), list[i].amount()));
        i += 1;
    }
    assert(assets(out@) =~= assets(list@));
    out
}

/// `list` after `add` was paid in, unless the amount of its asset would
/// grow beyond 128 bits.
fn credited<T: Fungible>(list: Vec<T>, add: &T) -> (r: Result<Vec<T>, ContractError>)
    requires
        normal(assets(list@)),
    ensures
        match r {
            Ok(v) => assets(v@) == credit(assets(list@), asset_of(*add)),
            Err(e) => e == ContractError::Overflow && amount_of(assets(list@), add.name_spec())
                + add.amount_spec() > u128::MAX,
        },
{
    let mut list = list;
    let ghost before = assets(list@);
    if add.amount() == 0 {
        return Ok(list);
    }
    match find(&list, add.name()) {
        Some(i) => {
            proof {
                lemma_first_index_is(before, add.name_spec(), i as int);
                lemma_amount_of_entry(before, i as int);
            }
            match list[i].amount().checked_add(add.amount()) {
                Some(sum) => {
                    list.set(i, T::of(add.name().clone(), sum));
                    assert(assets(list@) =~= credit(before, asset_of(*add)));
                    Ok(list)
                },
                None => Err(ContractError::Overflow),
            }
        },
        None => {
            proof {
                lemma_amount_of_absent(before, add.name_spec());
            }
            list.push(T::of(add.name().clone(), add.amount()));
            assert(assets(list@) =~= credit(before, asset_of(*add)));
            Ok(list)
        },
    }
}

/// `base` after every item of `adds` was paid in, in their order, unless
/// the amount of some asset would grow beyond 128 bits.
fn merged<T: Fungible>(base: &Vec<T>, adds: &Vec<T>) -> (r: Result<Vec<T>, ContractError>)
    requires
        normal(assets(base@)),
    ensures
        match r {
            Ok(v) => assets(v@) == credit_all(assets(base@), assets(adds@)) && normal(assets(v@))
                && !overflows(assets(base@), assets(adds@)),
            Err(e) => e == ContractError::Overflow && overflows(assets(base@), assets(adds@)),
        },
{
    let ghost from = assets(base@);
    let ghost all = assets(adds@);
    let mut acc: Vec<T> = converted(base);
    let mut i: usize = 0;
    assert(all.take(0) =~= Seq::<Asset>::empty());
    while i < adds.len()
        invariant
            i <= adds.len(),
            from == assets(base@),
            all == assets(adds@),
            normal(from),
            normal(assets(acc@)),
            assets(acc@) == credit_all(from, all.take(i as int)),
        decreases adds.len() - i,
    {
        let ghost name = adds[i as int].name_spec();
        let ghost now = assets(acc@);
        proof {
            assert(all.take(i + 1).drop_last() =~= all.take(i as int));
            assert(all.take(i + 1).last() == asset_of(adds[i as int]));
            lemma_credit_normal(now, asset_of(adds[i as int]));
        }
        match credited(acc, &adds[i]) {
            Ok(next) => {
                acc = next;
            },
            Err(e) => {
                proof {
                    lemma_credit_all_amount(from, all.take(i as int), name);
                    lemma_amount_of_prefix(all, i + 1, name);
                    assert(amount_of(from, name) + amount_of(all, name) > u128::MAX);
                }
                return Err(e);
            },
        }
        i += 1;
    }
    proof {
        assert(all.take(i as int) =~= all);
        let out = assets(acc@);
        assert(fits(out));
        assert forall|name: Seq<char>| amount_of(from, name) + #[trigger] amount_of(all, name)
            <= u128::MAX by {
            lemma_credit_all_amount(from, all, name);
            lemma_normal_fits(out, name);
        }
    }
    Ok(acc)
}

/// The funds of a lock: native coins, one entry for each denomination, and
/// tokens, one entry for each token contract. No entry is zero.
#[derive(Debug, PartialEq, Eq)]
pub struct GenericBalance {
    native: Vec<Coin>,
    cw20: Vec<Cw20CoinVerified>,
}

impl View for GenericBalance {
    type V = Funds;

    closed spec fn view(&self) -> Funds {
        Funds { native: assets(self.native@), cw20: assets(self.cw20@) }
    }
}

impl GenericBalance {
    /// What holds of all funds at all times.
    #[verifier::type_invariant]
    pub closed spec fn inv(self) -> bool {
        normal(assets(self.native@)) && normal(assets(self.cw20@))
    }

    /// Funds hold no entry of zero and no asset twice.
    pub proof fn lemma_normal(self)
        requires
            self.inv(),
        ensures
            self@.normal(),
    {
    }

    /// Funds that hold nothing.
    pub fn new() -> (r: GenericBalance)
        ensures
            r@ == Funds::empty(),
    {
        let r = GenericBalance { native: Vec::new(), cw20: Vec::new() };
        assert(assets(r.native@) =~= Seq::<Asset>::empty());
        assert(assets(r.cw20@) =~= Seq::<Asset>::empty());
        r
    }

    /// A copy of these funds.
    pub fn duplicate(&self) -> (r: GenericBalance)
        ensures
            r@ == self@,
    {
        proof {
            use_type_invariant(self);
        }
        GenericBalance { native: converted(&self.native), cw20: converted(&self.cw20) }
    }

    /// Whether there is no native amount and no token entry.
    pub fn is_empty(&self) -> (r: bool)
        ensures
            r == self@.is_empty(),
            r == (self@.native.len() == 0 && self@.cw20.len() == 0),
            self@.normal(),
    {
        proof {
            use_type_invariant(self);
            lemma_normal_total(assets(self.native@));
            lemma_normal_total(assets(self.cw20@));
        }
        self.native.is_empty() && self.cw20.is_empty()
    }

    /// The native coins, one entry for each denomination.
    pub fn native(&self) -> (r: &Vec<Coin>)
        ensures
            assets(r@) == self@.native,
    {
        &self.native
    }

    /// The tokens, one entry for each token contract.
    pub fn cw20(&self) -> (r: &Vec<Cw20CoinVerified>)
        ensures
            assets(r@) == self@.cw20,
    {
        &self.cw20
    }

    /// Pays a deposit in. If an amount would grow beyond 128 bits, nothing
    /// changes and the call fails.
    pub fn add_tokens(&mut self, add: Balance) -> (r: Result<(), ContractError>)
        ensures
            match r {
                Ok(_) => final(self)@ == old(self)@.merge(add@) && !old(self)@.merge_overflows(
                    add@,
                ),
                Err(e) => e == ContractError::Overflow && final(self)@ == old(self)@ && old(
                    self,
                )@.merge_overflows(add@),
            },
    {
        proof {
            use_type_invariant(&*self);
        }
        match add {
            Balance::Native(coins) => {
                proof {
                    lemma_nothing_added(assets(self.cw20@));
                }
                match merged(&self.native, &coins) {
                    Ok(native) => {
                        self.native = native;
                        Ok(())
                    },
                    Err(e) => Err(e),
                }
            },
            Balance::Cw20(token) => {
                proof {
                    lemma_nothing_added(assets(self.native@));
                }
                let mut tokens: Vec<Cw20CoinVerified> = Vec::new();
                tokens.push(token);
                assert(assets(tokens@) =~= seq![asset_of(token)]);
                match merged(&self.cw20, &tokens) {
                    Ok(cw20) => {
                        self.cw20 = cw20;
                        Ok(())
                    },
                    Err(e) => Err(e),
                }
            },
        }
    }

    /// Pays all of `other` in. If an amount would grow beyond 128 bits,
    /// nothing changes and the call fails.
    pub fn merge(&mut self, other: &GenericBalance) -> (r: Result<(), ContractError>)
        ensures
            match r {
                Ok(_) => final(self)@ == old(self)@.merge(other@) && !old(self)@.merge_overflows(
                    other@,
                ),
                Err(e) => e == ContractError::Overflow && final(self)@ == old(self)@ && old(
                    self,
                )@.merge_overflows(other@),
            },
    {
        proof {
            use_type_invariant(&*self);
        }
        let native = match merged(&self.native, &other.native) {
            Ok(native) => native,
            Err(e) => {
                return Err(e);
            },
        };
        let cw20 = match merged(&self.cw20, &other.cw20) {
            Ok(cw20) => cw20,
            Err(e) => {
                return Err(e);
            },
        };
        self.native = native;
        self.cw20 = cw20;
        Ok(())
    }
}

impl Clone for GenericBalance {
    fn clone(&self) -> (r: Self)
        ensures
            r@ == self@,
    {
        self.duplicate()
    }
}

/// Paying in nothing changes nothing and cannot overflow.
proof fn lemma_nothing_added(s: Seq<Asset>)
    requires
        normal(s),
        fits(s),
    ensures
        credit_all(s, Seq::empty()) == s,
        !overflows(s, Seq::empty()),
{
    assert forall|name: Seq<char>| amount_of(s, name) + #[trigger] amount_of(
        Seq::<Asset>::empty(),
        name,
    ) <= u128::MAX by {
        lemma_normal_fits(s, name);
    }
}

} // verus!
