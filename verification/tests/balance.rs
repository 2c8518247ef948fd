use cw_lockbox::balance::{coin, coins, Balance, Coin, Cw20CoinVerified, GenericBalance};
use cw_lockbox::error::ContractError;

fn token(address: &str, amount: u128) -> Cw20CoinVerified {
    Cw20CoinVerified { address: address.to_string(), amount }
}

fn funded(deposits: Vec<Balance>) -> GenericBalance {
    let mut funds = GenericBalance::new();
    for deposit in deposits {
        funds.add_tokens(deposit).unwrap();
    }
    funds
}

fn sorted_pairs(list: &[Coin]) -> Vec<(String, u128)> {
    let mut pairs: Vec<(String, u128)> = list.iter().map(|c| (c.denom.clone(), c.amount)).collect();
    pairs.sort();
    pairs
}

#[test]
fn coin_builders_hold_amount_and_denom() {
    assert_eq!(coin(7, "earth"), Coin { denom: "earth".to_string(), amount: 7 });
    assert_eq!(coins(7, "earth"), vec![Coin { denom: "earth".to_string(), amount: 7 }]);
}

#[test]
fn deposit_without_coins_is_empty() {
    assert!(Balance::Native(vec![]).is_empty());
}

#[test]
fn deposit_of_zero_coins_is_empty() {
    assert!(Balance::Native(vec![coin(0, "a"), coin(0, "b")]).is_empty());
}

#[test]
fn deposit_with_one_nonzero_coin_is_not_empty() {
    assert!(!Balance::Native(vec![coin(0, "a"), coin(5, "b")]).is_empty());
}

#[test]
fn token_deposit_is_empty_only_at_zero() {
    assert!(Balance::Cw20(token("contract", 0)).is_empty());
    assert!(!Balance::Cw20(token("contract", 3)).is_empty());
}

#[test]
fn new_funds_are_empty() {
    let funds = GenericBalance::new();
    assert!(funds.is_empty());
    assert_eq!(funds.native().len(), 0);
    assert_eq!(funds.cw20().len(), 0);
}

#[test]
fn funds_with_an_entry_are_not_empty() {
    assert!(!funded(vec![Balance::Native(coins(1, "a"))]).is_empty());
    assert!(!funded(vec![Balance::Cw20(token("t", 1))]).is_empty());
}

#[test]
fn add_tokens_adds_to_the_matching_entry() {
    let funds = funded(vec![Balance::Native(coins(2, "a")), Balance::Native(coins(3, "a"))]);
    assert_eq!(funds.native(), &coins(5, "a"));
}

#[test]
fn add_tokens_appends_new_denominations_in_order() {
    let funds = funded(vec![
        Balance::Native(coins(1, "b")),
        Balance::Native(vec![coin(4, "c"), coin(1, "a"), coin(2, "b")]),
    ]);
    assert_eq!(funds.native(), &vec![coin(3, "b"), coin(4, "c"), coin(1, "a")]);
}

#[test]
fn add_tokens_stores_no_zero_entry() {
    let funds = funded(vec![Balance::Native(vec![coin(0, "x"), coin(2, "y")])]);
    assert_eq!(funds.native(), &coins(2, "y"));
    let funds = funded(vec![Balance::Cw20(token("t", 0))]);
    assert!(funds.is_empty());
}

#[test]
fn add_tokens_merges_duplicates_within_one_deposit() {
    let funds = funded(vec![Balance::Native(vec![coin(1, "a"), coin(2, "a")])]);
    assert_eq!(funds.native(), &coins(3, "a"));
}

#[test]
fn add_tokens_keeps_tokens_apart_from_coins() {
    let funds = funded(vec![
        Balance::Native(coins(2, "same")),
        Balance::Cw20(token("same", 5)),
        Balance::Cw20(token("other", 1)),
        Balance::Cw20(token("same", 6)),
    ]);
    assert_eq!(funds.native(), &coins(2, "same"));
    assert_eq!(funds.cw20(), &vec![token("same", 11), token("other", 1)]);
}

#[test]
fn add_tokens_reaches_the_largest_amount() {
    let funds = funded(vec![
        Balance::Native(coins(u128::MAX - 1, "a")),
        Balance::Native(coins(1, "a")),
    ]);
    assert_eq!(funds.native(), &coins(u128::MAX, "a"));
}

#[test]
fn add_tokens_overflow_changes_nothing() {
    let mut funds = funded(vec![
        Balance::Native(vec![coin(u128::MAX, "a"), coin(1, "b")]),
        Balance::Cw20(token("t", u128::MAX)),
    ]);
    let before = funds.duplicate();
    let res = funds.add_tokens(Balance::Native(vec![coin(5, "b"), coin(1, "a")]));
    assert_eq!(res, Err(ContractError::Overflow));
    assert_eq!(funds, before);
    let res = funds.add_tokens(Balance::Cw20(token("t", 1)));
    assert_eq!(res, Err(ContractError::Overflow));
    assert_eq!(funds, before);
}

#[test]
fn add_tokens_overflow_within_one_deposit() {
    let mut funds = GenericBalance::new();
    let res = funds.add_tokens(Balance::Native(vec![coin(u128::MAX, "a"), coin(1, "a")]));
    assert_eq!(res, Err(ContractError::Overflow));
    assert!(funds.is_empty());
}

#[test]
fn merge_adds_every_entry_of_the_other() {
    let mut funds = funded(vec![Balance::Native(coins(1, "a")), Balance::Cw20(token("t", 2))]);
    let other = funded(vec![
        Balance::Native(vec![coin(10, "b"), coin(20, "a")]),
        Balance::Cw20(token("u", 3)),
        Balance::Cw20(token("t", 4)),
    ]);
    assert_eq!(funds.merge(&other), Ok(()));
    assert_eq!(funds.native(), &vec![coin(21, "a"), coin(10, "b")]);
    assert_eq!(funds.cw20(), &vec![token("t", 6), token("u", 3)]);
}

#[test]
fn merge_overflow_changes_nothing() {
    let mut funds = funded(vec![Balance::Native(coins(1, "a")), Balance::Cw20(token("t", u128::MAX))]);
    let before = funds.duplicate();
    let other = funded(vec![Balance::Native(coins(1, "a")), Balance::Cw20(token("t", 1))]);
    assert_eq!(funds.merge(&other), Err(ContractError::Overflow));
    assert_eq!(funds, before);
}

#[test]
fn merge_amounts_do_not_depend_on_the_order() {
    let a = vec![coin(1, "x"), coin(2, "y")];
    let b = vec![coin(5, "y"), coin(7, "z")];
    let ab = funded(vec![Balance::Native(a.clone()), Balance::Native(b.clone())]);
    let ba = funded(vec![Balance::Native(b), Balance::Native(a)]);
    assert_eq!(ab.native(), &vec![coin(1, "x"), coin(7, "y"), coin(7, "z")]);
    assert_eq!(ba.native(), &vec![coin(7, "y"), coin(7, "z"), coin(1, "x")]);
    assert_eq!(sorted_pairs(ab.native()), sorted_pairs(ba.native()));
}

#[test]
fn merge_amounts_do_not_depend_on_the_grouping() {
    let base = funded(vec![Balance::Native(coins(1, "x"))]);
    let a = funded(vec![Balance::Native(vec![coin(2, "x"), coin(3, "y")])]);
    let b = funded(vec![Balance::Native(vec![coin(4, "y"), coin(5, "z")])]);

    let mut left = base.duplicate();
    left.merge(&a).unwrap();
    left.merge(&b).unwrap();

    let mut both = a.duplicate();
    both.merge(&b).unwrap();
    let mut right = base.duplicate();
    right.merge(&both).unwrap();

    assert_eq!(left.native(), &vec![coin(3, "x"), coin(7, "y"), coin(5, "z")]);
    assert_eq!(sorted_pairs(left.native()), sorted_pairs(right.native()));
}

#[test]
fn duplicate_and_clone_copy_the_funds() {
    let funds = funded(vec![Balance::Native(coins(1, "a")), Balance::Cw20(token("t", 2))]);
    assert_eq!(funds.duplicate(), funds);
    assert_eq!(funds.clone(), funds);
}
