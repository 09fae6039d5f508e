//! Descriptor of the payment-gated path: a "transfer with message" call to
//! the token contract, addressed to the oracle, whose message carries the
//! JSON request descriptor.  The token contract forwards the payment and the
//! message; the oracle answers by calling back into the requester's push
//! entry point.

use vstd::prelude::*;

verus! {

pub const GAS_BASE_TRANSFER: u64 = 5_000_000_000_000;

pub const ENTRY_GAS: u64 = 200_000_000_000_000;

/// The single attached unit of value a transfer-call carries by convention.
pub const TRANSFER_CALL_DEPOSIT: u128 = 1;

/// A pending "transfer with message" call, ready for the shell to issue.
#[derive(Debug)]
pub struct TokenTransferCall {
    /// The token contract to call.
    pub token: String,
    /// Receiver of the transfer: the oracle.
    pub receiver: String,
    /// Amount transferred, paying for the data.
    pub amount: u128,
    /// No memo rides on these transfers.
    pub memo: Option<String>,
    /// The message forwarded to the receiver: a JSON request descriptor,
    /// UTF-8 bytes.
    pub msg: Vec<u8>,
    /// Value attached to the call itself.
    pub deposit: u128,
    /// Gas attached to the call.
    pub gas: u64,
}

/// Build the transfer-call that pays `value` to `receiver_id` through the
/// token contract and forwards `msg` to it.
pub fn fungible_token_transfer_call(
    token_account_id: String,
    receiver_id: String,
    value: u128,
    msg: Vec<u8>,
) -> (c: TokenTransferCall)
    ensures
        c.token@ == token_account_id@,
        c.receiver@ == receiver_id@,
        c.amount == value,
        c.memo is None,
        c.msg@ == msg@,
        c.deposit == TRANSFER_CALL_DEPOSIT,
        c.gas == ENTRY_GAS,
{
    TokenTransferCall {
        token: token_account_id,
        receiver: receiver_id,
        amount: value,
        memo: None,
        msg,
        deposit: TRANSFER_CALL_DEPOSIT,
        gas: ENTRY_GAS,
    }
}

} // verus!
