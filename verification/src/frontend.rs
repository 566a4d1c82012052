//! The messages the rollup's HTTP frontend exchanges with its clients and
//! with the store, and the replies it composes.

use vstd::prelude::*;
use crate::bytes::Hash32;
use crate::rollupdb::RollupDBMessage;
use crate::types::Transaction;

verus! {

/// The store's answer to a transaction request.
pub struct FrontendMessage {
    pub get_tx: Option<Hash32>,
    pub transaction: Option<Transaction>,
}

/// A client's request for a processed transaction by id.
pub struct GetTransaction {
    pub get_tx: String,
}

/// A transaction a client submits.
pub struct RollupTransaction {
    pub sender: String,
    pub sol_transaction: Transaction,
}

/// The frontend's answer to a client.
pub enum TransactionResponse {
    Success { message: String },
    Error { message: String },
}

/// Accepts a submitted transaction: returns the transaction to forward to
/// the sequencer and the success reply for the client.
pub fn submit_transaction(body: RollupTransaction) -> (r: (Transaction, TransactionResponse))
    ensures
        r.0@ == body.sol_transaction@,
        r.1 is Success,
        r.1->Success_message@ == "Transaction submitted"@,
{
    let reply = TransactionResponse::Success { message: String::from_str("Transaction submitted") };
    (body.sol_transaction, reply)
}

/// The store request for the transaction whose 32-byte id is the request
/// string's bytes.
pub fn get_transaction_request(body: &GetTransaction) -> (r: RollupDBMessage)
    requires
        vstd::utf8::encode_utf8(body.get_tx@).len() == 32,
    ensures
        r.lock_accounts is None,
        r.add_processed_transaction is None,
        r.add_settle_proof is None,
        r.unlock_accounts is None,
        r.add_new_data is None,
        r.frontend_get_tx is Some,
        r.frontend_get_tx->0@ == vstd::utf8::encode_utf8(body.get_tx@),
{
    let bytes = body.get_tx.as_str().as_bytes();
    let mut h: Hash32 = [0u8; 32];
    let mut i: usize = 0;
    while i < 32
        invariant
            0 <= i <= 32,
            bytes@ == vstd::utf8::encode_utf8(body.get_tx@),
            bytes@.len() == 32,
            forall|j: int| 0 <= j < i ==> h@[j] == bytes@[j],
        decreases 32 - i,
    {
        h[i] = bytes[i];
        i = i + 1;
    }
    assert(h@ =~= bytes@);
    RollupDBMessage {
        lock_accounts: None,
        add_processed_transaction: None,
        frontend_get_tx: Some(h),
        add_settle_proof: None,
        unlock_accounts: None,
        add_new_data: None,
    }
}

/// The status line the frontend replies with: the transaction was found
/// when the store answered, and is only requested otherwise.
pub fn get_transaction_response(reply: Option<&FrontendMessage>) -> (r: (String, String))
    requires
        reply matches Some(m) ==> m.transaction is Some,
    ensures
        reply is Some ==> r.0@ == "Requested transaction status"@ && r.1@ == "gotten successfully"@,
        reply is None ==> r.0@ == "Transaction status"@ && r.1@ == "requested"@,
{
    match reply {
        Some(_) => (String::from_str("Requested transaction status"), String::from_str("gotten successfully")),
        None => (String::from_str("Transaction status"), String::from_str("requested")),
    }
}

} // verus!
