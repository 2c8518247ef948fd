use cosmwasm_std::{to_binary, StdError, Uint128};
use cw20::Cw20ExecuteMsg;
use cw_lockbox::balance::{coin, coins, Balance, Cw20CoinVerified, GenericBalance};
use cw_lockbox::contract::{send_tokens, transfer_message};
use cw_lockbox::error::ContractError;
use cw_lockbox::msg::{BankMsg, Binary, CosmosMsg, WasmMsg};

fn token(address: &str, amount: u128) -> Cw20CoinVerified {
    Cw20CoinVerified { address: address.to_string(), amount }
}

fn funded(deposits: Vec<Balance>) -> GenericBalance {
    let mut funds = GenericBalance::new();
    for deposit in deposits {
        funds.add_tokens(deposit).unwrap();
    }
    funds
}

fn execute_msg(contract: &str, payload: &[u8]) -> CosmosMsg {
    CosmosMsg::Wasm(WasmMsg::Execute {
        contract_addr: contract.to_string(),
        msg: Binary(payload.to_vec()),
        send: vec![],
    })
}

#[test]
fn send_tokens_of_nothing_sends_nothing() {
    assert_eq!(send_tokens(&"anyone".to_string(), &GenericBalance::new()), Ok(vec![]));
}

#[test]
fn send_tokens_pays_all_coins_in_one_message() {
    let funds = funded(vec![Balance::Native(vec![coin(2, "token"), coin(3, "earth")])]);
    assert_eq!(
        send_tokens(&"anyone".to_string(), &funds),
        Ok(vec![CosmosMsg::Bank(BankMsg::Send {
            to_address: "anyone".to_string(),
            amount: vec![coin(2, "token"), coin(3, "earth")],
        })])
    );
}

#[test]
fn send_tokens_encodes_a_transfer_for_each_token() {
    let funds = funded(vec![Balance::Cw20(token("contract", 2))]);
    assert_eq!(
        send_tokens(&"anyone".to_string(), &funds),
        Ok(vec![execute_msg("contract", br#"{"transfer":{"recipient":"anyone","amount":"2"}}"#)])
    );
}

#[test]
fn send_tokens_puts_coins_first_and_tokens_in_their_order() {
    let funds = funded(vec![
        Balance::Cw20(token("second", 7)),
        Balance::Native(coins(1, "earth")),
        Balance::Cw20(token("first", u128::MAX)),
    ]);
    assert_eq!(
        send_tokens(&"bob".to_string(), &funds),
        Ok(vec![
            CosmosMsg::Bank(BankMsg::Send { to_address: "bob".to_string(), amount: coins(1, "earth") }),
            execute_msg("second", br#"{"transfer":{"recipient":"bob","amount":"7"}}"#),
            execute_msg(
                "first",
                br#"{"transfer":{"recipient":"bob","amount":"340282366920938463463374607431768211455"}}"#
            ),
        ])
    );
}

#[test]
fn send_tokens_payload_is_what_the_token_contract_reads() {
    let funds = funded(vec![Balance::Cw20(token("contract", 12345))]);
    let expected = to_binary(&Cw20ExecuteMsg::Transfer {
        recipient: "an \"odd\" name".to_string(),
        amount: Uint128(12345),
    })
    .unwrap();
    assert_eq!(
        send_tokens(&"an \"odd\" name".to_string(), &funds),
        Ok(vec![execute_msg("contract", expected.as_slice())])
    );
}

#[test]
fn transfer_message_wraps_the_payload() {
    assert_eq!(
        transfer_message(&token("contract", 5), Ok(vec![1, 2, 3])),
        Ok(execute_msg("contract", &[1, 2, 3]))
    );
}

#[test]
fn transfer_message_fails_where_encoding_failed() {
    assert_eq!(
        transfer_message(&token("contract", 5), Err(StdError::generic_err("no"))),
        Err(ContractError::Serialize)
    );
}
