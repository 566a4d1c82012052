//! The calls this library makes into the Solana SDK and its encoders.
//!
//! Every function here is trusted: its body calls the outside crate and
//! converts between the library's plain types and the crate's types, and
//! its contract states what the crate's source shows of that call.

use vstd::prelude::*;
use crate::bytes::{Hash32, Keypair, Pubkey};
use solana_sdk::hash::Hash as SdkHash;
use solana_sdk::instruction::{AccountMeta as SdkAccountMeta, CompiledInstruction as SdkCompiledInstruction, Instruction as SdkInstruction};
use solana_sdk::message::{Message as SdkMessage, MessageHeader as SdkMessageHeader};
use solana_sdk::pubkey::Pubkey as SdkPubkey;
use solana_sdk::signature::{Keypair as SdkKeypair, Signature as SdkSignature};
use solana_sdk::signer::Signer;
use solana_sdk::transaction::Transaction as SdkTransaction;
use crate::codec::u64_le;
use crate::types::{AccountMeta, Instruction, InstructionView, Message, MessageView, Transaction, TransactionView};

verus! {

/// The all-zero key, which is the address of the system program.
pub open spec fn system_program_key() -> Pubkey {
    vstd::array::spec_array_fill_for_copy_type::<u8, 32>(0u8)
}

/// Data that bincode decodes as the system program's `Transfer`
/// instruction: the variant index 2 as a little-endian `u32`, followed by
/// at least the eight bytes of the lamport amount.
pub open spec fn is_transfer_data(d: Seq<u8>) -> bool {
    &&& d.len() >= 12
    &&& d[0] == 2u8
    &&& d[1] == 0u8
    &&& d[2] == 0u8
    &&& d[3] == 0u8
}

/// The instruction the system program's `transfer` builds: the payer signs
/// and is written, the recipient is written, and the data is the bincode
/// encoding of `Transfer { lamports }`.
pub open spec fn transfer_instruction(from: Pubkey, to: Pubkey, lamports: u64) -> InstructionView {
    InstructionView {
        program_id: system_program_key(),
        accounts: seq![
            AccountMeta { pubkey: from, is_signer: true, is_writable: true },
            AccountMeta { pubkey: to, is_signer: false, is_writable: true },
        ],
        data: seq![2u8, 0u8, 0u8, 0u8] + u64_le(lamports),
    }
}

/// Calls `solana_sdk::system_program::id()`. The SDK declares that id as
/// "11111111111111111111111111111111", whose base58 decoding is 32 zero bytes.
#[verifier::external_body]
pub(crate) fn system_program_id() -> (r: Pubkey)
    ensures
        r == system_program_key(),
{
    solana_sdk::system_program::id().to_bytes()
}

/// Calls `bincode::deserialize::<SystemInstruction>` and tells whether it
/// decodes `Transfer`. bincode's `deserialize` reads the enum's variant
/// index as a fixed four-byte little-endian `u32` (`Transfer` is variant 2)
/// and then the `u64` lamports as eight little-endian bytes, and accepts
/// trailing bytes.
#[verifier::external_body]
pub(crate) fn decodes_as_transfer(data: &[u8]) -> (r: bool)
    ensures
        r == is_transfer_data(data@),
{
    matches!(
        bincode::deserialize::<solana_sdk::system_instruction::SystemInstruction>(data),
        Ok(solana_sdk::system_instruction::SystemInstruction::Transfer { .. })
    )
}

/// Calls `solana_sdk::system_instruction::transfer`, which builds the
/// instruction with `AccountMeta::new(from, true)`, `AccountMeta::new(to,
/// false)` and `Instruction::new_with_bincode(system_program::id(),
/// &SystemInstruction::Transfer { lamports }, ..)`.
#[verifier::external_body]
pub(crate) fn system_transfer(from: &Pubkey, to: &Pubkey, lamports: u64) -> (r: Instruction)
    ensures
        r@ == transfer_instruction(*from, *to, lamports),
{
    let ix = solana_sdk::system_instruction::transfer(
        &SdkPubkey::new_from_array(*from),
        &SdkPubkey::new_from_array(*to),
        lamports,
    );
    let accounts = ix.accounts.iter().map(|m| AccountMeta {
        pubkey: m.pubkey.to_bytes(),
        is_signer: m.is_signer,
        is_writable: m.is_writable,
    }).collect();
    Instruction { program_id: ix.program_id.to_bytes(), accounts, data: ix.data }
}

} // verus!

verus! {

/// What `Pubkey::from_str` makes of a base58 string: the 32 decoded
/// bytes, or nothing when the string is too long, not base58, or does not
/// decode to exactly 32 bytes.
pub uninterp spec fn base58_pubkey(s: Seq<char>) -> Option<Pubkey>;

/// Calls `<solana_sdk::pubkey::Pubkey as FromStr>::from_str`; its result
/// is named `base58_pubkey` and nothing more is claimed of it.
#[verifier::external_body]
pub(crate) fn parse_pubkey(s: &str) -> (r: Option<Pubkey>)
    ensures
        r == base58_pubkey(s@),
{
    s.parse::<SdkPubkey>().ok().map(|k| k.to_bytes())
}

/// How `Pubkey`'s `Display` writes a key: in base58.
pub uninterp spec fn base58_text(key: Pubkey) -> Seq<char>;

/// Calls `to_string` on the key as a `solana_sdk::pubkey::Pubkey`, whose
/// `Display` writes its base58 encoding; the text is named `base58_text`.
#[verifier::external_body]
pub(crate) fn pubkey_text(key: &Pubkey) -> (r: String)
    ensures
        r@ == base58_text(*key),
{
    SdkPubkey::new_from_array(*key).to_string()
}

/// What `Pubkey::try_find_program_address` returns for these seeds and
/// program: the first bump seed counting down from 255 whose derived
/// address is off the ed25519 curve, with that address; nothing if none is.
pub uninterp spec fn program_address(seeds: Seq<Seq<u8>>, program_id: Pubkey) -> Option<(Pubkey, u8)>;

/// Calls `SdkPubkey::try_find_program_address`, which
/// hashes the seeds, the bump and the program id with SHA-256; its result
/// is named `program_address`.
#[verifier::external_body]
pub(crate) fn try_find_program_address(seeds: &Vec<Vec<u8>>, program_id: &Pubkey) -> (r: Option<(Pubkey, u8)>)
    ensures
        r == program_address(seeds@.map_values(|s: Vec<u8>| s@), *program_id),
{
    let slices: Vec<&[u8]> = seeds.iter().map(|s| s.as_slice()).collect();
    let program = SdkPubkey::new_from_array(*program_id);
    SdkPubkey::try_find_program_address(&slices, &program).map(|(k, b)| (k.to_bytes(), b))
}

/// The SHA-256 digest of `data`.
pub uninterp spec fn sha256_of(data: Seq<u8>) -> Seq<u8>;

/// Calls `<sha2::Sha256 as Digest>::digest`; its 32-byte result is named
/// `sha256_of`.
#[verifier::external_body]
pub(crate) fn sha256(data: &[u8]) -> (r: [u8; 32])
    ensures
        r@ == sha256_of(data@),
{
    <sha2::Sha256 as sha2::Digest>::digest(data).into()
}

/// Calls `borsh::to_vec` on a `u64`. borsh writes integers as their
/// little-endian bytes (`to_le_bytes`), and writing into a `Vec` cannot fail.
#[verifier::external_body]
pub(crate) fn borsh_u64(v: u64) -> (r: Vec<u8>)
    ensures
        r@ == u64_le(v),
{
    borsh::to_vec(&v).unwrap()
}

/// Whether `Keypair::from_bytes` accepts these 64 bytes: the last 32 are
/// the public key that ed25519 derives from the first 32.
pub uninterp spec fn keypair_accepted(bytes: Seq<u8>) -> bool;

/// Calls `solana_sdk::signature::Keypair::from_bytes` and tells whether it
/// succeeded; the answer depends on the bytes alone and is named
/// `keypair_accepted`.
#[verifier::external_body]
pub(crate) fn keypair_bytes_accepted(bytes: &[u8; 64]) -> (r: bool)
    ensures
        r == keypair_accepted(bytes@),
{
    SdkKeypair::from_bytes(bytes).is_ok()
}

/// Every account of `ix` that must sign has the public key `key`.
pub open spec fn only_signer(ix: InstructionView, key: Seq<u8>) -> bool {
    forall|i: int| 0 <= i < ix.accounts.len() ==> (#[trigger] ix.accounts[i]).is_signer ==> ix.accounts[i].pubkey@ == key
}

/// The wire bytes of the transaction that carries `ix`, is paid for by the
/// keypair's public key, uses `blockhash` and is signed by the keypair;
/// nothing when the bytes are not a valid keypair or signing fails.
pub uninterp spec fn signed_transaction(ix: InstructionView, keypair: Seq<u8>, blockhash: Hash32) -> Option<Seq<u8>>;

/// Builds and signs a one-instruction transaction: calls
/// `Keypair::from_bytes`, `Message::new_with_blockhash` with the keypair's
/// public key as payer, `Transaction::new_unsigned`, `Transaction::try_sign`
/// and `bincode::serialize`. ed25519 signing is deterministic, so the bytes
/// depend on the arguments alone; they are named `signed_transaction`.
/// `new_with_blockhash` panics when the message would need more than 255
/// keys of one kind, and `try_sign` serializes the message with an
/// `unwrap` that panics when the data is longer than `u16::MAX`; the
/// bounds below exclude both (the payer and the program add at most two keys).
///
/// Signing succeeds when `from_bytes` accepts the keypair and no account
/// but the payer must sign: the message then needs one signature, at the
/// payer's position, `try_partial_sign` finds the keypair there, and
/// `Keypair::try_sign_message` never fails. The closing `is_signed` check
/// rejects only the all-zero signature, and an ed25519 signature never is
/// one: its first half is the encoding of `r * B`, a point of the group of
/// prime order that `B` generates, while 32 zero bytes encode a point of
/// order four. What the bytes are is not stated beyond their name.
#[verifier::external_body]
pub(crate) fn sign_instruction(ix: &Instruction, keypair: &Keypair, blockhash: &Hash32) -> (r: Option<Vec<u8>>)
    requires
        ix@.accounts.len() < 254,
        ix@.data.len() <= u16::MAX,
    ensures
        r matches Some(b) ==> signed_transaction(ix@, keypair@, *blockhash) == Some(b@),
        r is None ==> signed_transaction(ix@, keypair@, *blockhash) is None,
        keypair_accepted(keypair@) && only_signer(ix@, keypair@.subrange(32, 64)) ==> r is Some,
{
    let kp = SdkKeypair::from_bytes(&keypair.to_bytes()).ok()?;
    let metas = ix.accounts.iter().map(|m| SdkAccountMeta {
        pubkey: SdkPubkey::new_from_array(m.pubkey), is_signer: m.is_signer, is_writable: m.is_writable,
    }).collect();
    let sdk_ix = SdkInstruction::new_with_bytes(SdkPubkey::new_from_array(ix.program_id), &ix.data, metas);
    let hash = SdkHash::new_from_array(*blockhash);
    let message = SdkMessage::new_with_blockhash(&[sdk_ix], Some(&kp.pubkey()), &hash);
    let mut tx = SdkTransaction::new_unsigned(message);
    tx.try_sign(&[&kp], hash).ok()?;
    bincode::serialize(&tx).ok()
}

} // verus!

verus! {

/// Returns `solana_sdk::native_token::LAMPORTS_PER_SOL`, which the SDK
/// defines as 1_000_000_000.
#[verifier::external_body]
pub(crate) fn lamports_per_sol() -> (r: u64)
    ensures
        r == 1_000_000_000,
{
    solana_sdk::native_token::LAMPORTS_PER_SOL
}

} // verus!

verus! {

/// The message fits Solana's compact length prefixes, which hold at most
/// `u16::MAX`: its key list, its instruction list, and each instruction's
/// account list and data.
pub open spec fn message_encodable(m: MessageView) -> bool {
    &&& m.account_keys.len() <= u16::MAX
    &&& m.instructions.len() <= u16::MAX
    &&& forall|i: int|
        0 <= i < m.instructions.len() ==> (#[trigger] m.instructions[i]).accounts.len() <= u16::MAX
            && m.instructions[i].data.len() <= u16::MAX
}

/// Whether each signature of the transaction that has a key at the same
/// position of its message's key list verifies, under ed25519, against
/// that key over the message's bincode encoding.
pub uninterp spec fn signatures_valid(tx: TransactionView) -> bool;

/// Calls `solana_sdk::transaction::Transaction::verify` and tells whether
/// it returned `Ok`; the answer depends on the transaction alone and is
/// named `signatures_valid`. `verify` pairs signatures with keys by
/// `zip`, so a transaction without signatures verifies. It serializes the
/// message with an `unwrap`, which panics on messages that are not
/// encodable; those are excluded.
#[verifier::external_body]
pub(crate) fn signatures_verify(tx: &Transaction) -> (r: bool)
    requires
        message_encodable(tx@.message),
    ensures
        r == signatures_valid(tx@),
        tx@.signatures.len() == 0 ==> r,
{
    let (h, m) = (&tx.message.header, &tx.message);
    let message = SdkMessage {
        header: SdkMessageHeader { num_required_signatures: h.num_required_signatures, num_readonly_signed_accounts: h.num_readonly_signed_accounts, num_readonly_unsigned_accounts: h.num_readonly_unsigned_accounts },
        account_keys: m.account_keys.iter().map(|k| SdkPubkey::new_from_array(*k)).collect(),
        recent_blockhash: SdkHash::new_from_array(m.recent_blockhash),
        instructions: m.instructions.iter().map(|c| SdkCompiledInstruction { program_id_index: c.program_id_index, accounts: c.accounts.clone(), data: c.data.clone() }).collect(),
    };
    let signatures = tx.signatures.iter().map(|s| SdkSignature::from(*s)).collect();
    SdkTransaction { signatures, message }.verify().is_ok()
}

/// The hash Solana gives a legacy message: blake3 over a fixed prefix and
/// the message's bincode encoding.
pub uninterp spec fn message_hash(message: MessageView) -> Hash32;

/// Calls `solana_sdk::message::Message::hash` on the message; its result
/// is named `message_hash`. `hash` serializes the message with an
/// `unwrap`, which panics when a compact length exceeds `u16::MAX`; those
/// messages are excluded.
#[verifier::external_body]
pub(crate) fn hash_message(message: &Message) -> (r: Hash32)
    requires
        message_encodable(message@),
    ensures
        r == message_hash(message@),
{
    let h = &message.header;
    let m = SdkMessage {
        header: SdkMessageHeader { num_required_signatures: h.num_required_signatures, num_readonly_signed_accounts: h.num_readonly_signed_accounts, num_readonly_unsigned_accounts: h.num_readonly_unsigned_accounts },
        account_keys: message.account_keys.iter().map(|k| SdkPubkey::new_from_array(*k)).collect(),
        recent_blockhash: SdkHash::new_from_array(message.recent_blockhash),
        instructions: message.instructions.iter().map(|c| SdkCompiledInstruction { program_id_index: c.program_id_index, accounts: c.accounts.clone(), data: c.data.clone() }).collect(),
    };
    m.hash().to_bytes()
}

} // verus!
