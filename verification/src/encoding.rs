//! The encoding of the message that asks a token contract for a transfer.

use vstd::prelude::*;

verus! {

/// An error of `cosmwasm_std`. Nothing is known of what it holds.
#[verifier::external_type_specification]
#[verifier::external_body]
pub struct ExStdError(cosmwasm_std::StdError);

/// The bytes that `cosmwasm_std::to_binary` gives for the message
/// `cw20::Cw20ExecuteMsg::Transfer` with this recipient and this amount, or
/// `None` where it fails.
pub uninterp spec fn cw20_transfer_payload(recipient: Seq<char>, amount: u128) -> Option<Seq<u8>>;

/// Encodes the message that asks a token contract to transfer `amount` to
/// `recipient`.
///
/// Calls `cosmwasm_std::to_binary` on `cw20::Cw20ExecuteMsg::Transfer`. The
/// contract claims that the outcome depends on the recipient and the amount
/// alone: the bytes, or the failure, are what `cw20_transfer_payload` names.
#[verifier::external_body]
pub(crate) fn encode_cw20_transfer(recipient: &String, amount: u128) -> (r: Result<
    Vec<u8>,
    cosmwasm_std::StdError,
>)
    ensures
        r is Ok ==> cw20_transfer_payload(recipient@, amount) == Some(r->Ok_0@),
        r is Err ==> cw20_transfer_payload(recipient@, amount) is None,
{
    let msg = cw20::Cw20ExecuteMsg::Transfer {
        recipient: recipient.clone(),
        amount: cosmwasm_std::Uint128(amount),
    };
    match cosmwasm_std::to_binary(&msg) {
        Ok(binary) => Ok(binary.0),
        Err(e) => Err(e),
    }
}

} // verus!
