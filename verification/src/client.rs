//! The demonstration client's transfers: amounts in tenths of a SOL,
//! signed transfers between its two keypairs.

use vstd::prelude::*;
use crate::bytes::{Hash32, Keypair, keypair_pubkey};
use crate::codec::lemma_le_bytes_len;
use crate::sdk::{lamports_per_sol, only_signer, sign_instruction, signed_transaction, system_transfer, transfer_instruction};
use crate::types::Instruction;

verus! {

/// Lamports in a tenth of a SOL.
pub open spec fn lamports_per_tenth() -> int {
    100_000_000
}

/// Who pays for a signed amount of tenths of a SOL, and how many
/// lamports: the sender for a positive amount, the receiver otherwise.
pub fn plan_transfer(amount: i64) -> (r: (bool, u64))
    requires
        amount != i64::MIN,
        (if amount > 0 { amount as int } else { -amount }) * lamports_per_tenth() <= u64::MAX,
    ensures
        r.0 == (amount > 0),
        r.1 == (if amount > 0 { amount as int } else { -amount }) * lamports_per_tenth(),
{
    let tenth: u64 = lamports_per_sol() / 10;
    if amount > 0 {
        (true, (amount as u64) * tenth)
    } else {
        (false, ((-amount) as u64) * tenth)
    }
}

/// A transaction, signed by `keypair2`, that moves `amount` tenths of a
/// SOL from `keypair2` to `keypair`.
pub fn gen_transfer_tx(keypair: &Keypair, keypair2: &Keypair, amount: u64, recent_blockhash: &Hash32) -> (r: Vec<u8>)
    requires
        amount * lamports_per_tenth() <= u64::MAX,
    ensures
        signed_transaction(
            transfer_instruction(keypair2.pubkey_spec(), keypair.pubkey_spec(), (amount * lamports_per_tenth()) as u64),
            keypair2@,
            *recent_blockhash,
        ) == Some(r@),
{
    let lamports: u64 = amount * (lamports_per_sol() / 10);
    let ix = system_transfer(&keypair2.pubkey(), &keypair.pubkey(), lamports);
    proof {
        lemma_le_bytes_len(lamports as nat, 8);
        assert(only_signer(ix@, keypair_pubkey(keypair2@)));
    }
    sign_as_payer(&ix, keypair2, recent_blockhash)
}

/// The wire bytes of the transaction that carries `ix`, paid for and
/// signed by `signer`, the only account `ix` asks a signature of.
pub(crate) fn sign_as_payer(ix: &Instruction, signer: &Keypair, blockhash: &Hash32) -> (r: Vec<u8>)
    requires
        ix@.accounts.len() < 254,
        ix@.data.len() <= u16::MAX,
        only_signer(ix@, keypair_pubkey(signer@)),
    ensures
        signed_transaction(ix@, signer@, *blockhash) == Some(r@),
{
    proof {
        use_type_invariant(signer);
    }
    match sign_instruction(ix, signer, blockhash) {
        Some(bytes) => bytes,
        None => {
            proof {
                assert(false);
            }
            Vec::new()
        },
    }
}

} // verus!
