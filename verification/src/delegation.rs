//! The delegation program's interface: its address, the delegation
//! account derived for each owner, the layout of that account, and the
//! instructions that open, top up and withdraw from a delegation.

use vstd::prelude::*;
use crate::bytes::Pubkey;
use crate::codec::{lemma_le_bytes_len, i64_bits, i64_of_bits, i64_to_bits, le_bytes, lemma_le_bytes_of_value, lemma_le_roundtrip, lemma_le_value_bound, lemma_pow256_8, read_u64_le, u64_le, write_u64_le};
use crate::sdk::{base58_pubkey, borsh_u64, parse_pubkey, program_address, sha256, sha256_of, system_program_id, system_program_key, try_find_program_address};
use crate::types::{AccountMeta, Instruction, InstructionView};

verus! {

/// The delegation program's address, as written in base58.
pub open spec fn delegation_program_text() -> Seq<char> {
    "5MSF4TiUfD7dVm7P1ahPYJfEBLCUQn7hEPYXYHocVwzh"@
}

/// The delegation program's address, if its text parses.
pub open spec fn delegation_program_key() -> Option<Pubkey> {
    base58_pubkey(delegation_program_text())
}

/// The ASCII bytes of `delegate`, the seed of every delegation account.
pub open spec fn delegate_seed() -> Seq<u8> {
    seq![100u8, 101u8, 108u8, 101u8, 103u8, 97u8, 116u8, 101u8]
}

/// The seeds of `owner`'s delegation account.
pub open spec fn delegation_seeds(owner: Pubkey) -> Seq<Seq<u8>> {
    seq![delegate_seed(), owner@]
}

/// `owner`'s delegation account and its bump seed, if the program address
/// parses and an address is found.
pub open spec fn delegation_pda(owner: Pubkey) -> Option<(Pubkey, u8)> {
    match delegation_program_key() {
        Some(program) => program_address(delegation_seeds(owner), program),
        None => None,
    }
}

/// The program's address.
pub fn get_delegation_program_id() -> (r: Pubkey)
    requires
        delegation_program_key() is Some,
    ensures
        delegation_program_key() == Some(r),
{
    parse_pubkey("5MSF4TiUfD7dVm7P1ahPYJfEBLCUQn7hEPYXYHocVwzh").unwrap()
}

/// The program's address, or `None` when its text does not parse.
pub fn try_get_delegation_program_id() -> (r: Option<Pubkey>)
    ensures
        r == delegation_program_key(),
{
    parse_pubkey("5MSF4TiUfD7dVm7P1ahPYJfEBLCUQn7hEPYXYHocVwzh")
}

fn delegation_seed_bytes(owner: &Pubkey) -> (r: Vec<Vec<u8>>)
    ensures
        r@.map_values(|s: Vec<u8>| s@) == delegation_seeds(*owner),
{
    let seed: Vec<u8> = vec![100u8, 101u8, 108u8, 101u8, 103u8, 97u8, 116u8, 101u8];
    let mut key: Vec<u8> = Vec::new();
    let mut i: usize = 0;
    while i < 32
        invariant
            0 <= i <= 32,
            key@ == owner@.subrange(0, i as int),
        decreases 32 - i,
    {
        key.push(owner[i]);
        i = i + 1;
        assert(key@ =~= owner@.subrange(0, i as int));
    }
    assert(owner@.subrange(0, 32) =~= owner@);
    let r = vec![seed, key];
    assert(r@.map_values(|s: Vec<u8>| s@) =~= delegation_seeds(*owner));
    r
}

/// `owner`'s delegation account and its bump seed.
pub fn find_delegation_pda(owner: &Pubkey) -> (r: (Pubkey, u8))
    requires
        delegation_pda(*owner) is Some,
    ensures
        delegation_pda(*owner) == Some(r),
{
    let program = get_delegation_program_id();
    let seeds = delegation_seed_bytes(owner);
    try_find_program_address(&seeds, &program).unwrap()
}

/// `owner`'s delegation account and its bump seed, or `None` when the
/// program address does not parse or no address is found.
pub fn try_find_delegation_pda(owner: &Pubkey) -> (r: Option<(Pubkey, u8)>)
    ensures
        r == delegation_pda(*owner),
{
    match try_get_delegation_program_id() {
        Some(program) => {
            let seeds = delegation_seed_bytes(owner);
            match try_find_program_address(&seeds, &program) {
                Some(_) => Some(find_delegation_pda(owner)),
                None => None,
            }
        },
        None => None,
    }
}

/// The first eight bytes of the SHA-256 digest of `global:<name>`: the
/// tag by which the program tells its instructions apart.
pub open spec fn discriminator(name: Seq<char>) -> Seq<u8> {
    sha256_of(vstd::utf8::encode_utf8(name)).take(8)
}

fn discriminator_of(preimage: &str) -> (r: Vec<u8>)
    ensures
        r@ == sha256_of(vstd::utf8::encode_utf8(preimage@)).take(8),
        r@.len() == 8,
{
    let digest = sha256(preimage.as_bytes());
    let mut out: Vec<u8> = Vec::new();
    let mut i: usize = 0;
    while i < 8
        invariant
            0 <= i <= 8,
            digest@ == sha256_of(vstd::utf8::encode_utf8(preimage@)),
            out@ == digest@.take(i as int),
        decreases 8 - i,
    {
        out.push(digest[i]);
        i = i + 1;
        assert(out@ =~= digest@.take(i as int));
    }
    out
}

/// The accounts of every delegation instruction: the owner signs, the
/// delegation account is written, and the system program is read.
pub open spec fn delegation_accounts(owner: Pubkey, pda: Pubkey) -> Seq<AccountMeta> {
    seq![
        AccountMeta { pubkey: owner, is_signer: true, is_writable: true },
        AccountMeta { pubkey: pda, is_signer: false, is_writable: true },
        AccountMeta { pubkey: system_program_key(), is_signer: false, is_writable: false },
    ]
}

/// A delegation instruction with the given tag and amount.
pub open spec fn delegation_instruction(program: Pubkey, owner: Pubkey, pda: Pubkey, tag: Seq<u8>, amount: u64) -> InstructionView {
    InstructionView { program_id: program, accounts: delegation_accounts(owner, pda), data: tag + u64_le(amount) }
}

fn build_instruction(program: Pubkey, owner: &Pubkey, pda: Pubkey, data: Vec<u8>) -> (r: Instruction)
    ensures
        r@ == (InstructionView { program_id: program, accounts: delegation_accounts(*owner, pda), data: data@ }),
{
    let system = system_program_id();
    let accounts = vec![
        AccountMeta { pubkey: *owner, is_signer: true, is_writable: true },
        AccountMeta { pubkey: pda, is_signer: false, is_writable: true },
        AccountMeta { pubkey: system, is_signer: false, is_writable: false },
    ];
    let r = Instruction { program_id: program, accounts, data };
    assert(r@.accounts =~= delegation_accounts(*owner, pda));
    r
}

fn append(a: &mut Vec<u8>, b: Vec<u8>)
    ensures
        final(a)@ == old(a)@ + b@,
        final(a)@.len() == old(a)@.len() + b@.len(),
{
    let mut i: usize = 0;
    let ghost a0 = a@;
    while i < b.len()
        invariant
            0 <= i <= b@.len(),
            a@ == a0 + b@.subrange(0, i as int),
        decreases b@.len() - i,
    {
        a.push(b[i]);
        i = i + 1;
        assert(a@ =~= a0 + b@.subrange(0, i as int));
    }
    assert(b@.subrange(0, b@.len() as int) =~= b@);
}

/// The instruction that opens `owner`'s delegation with `amount` lamports.
pub fn create_delegation_instruction(owner: &Pubkey, amount: u64) -> (r: Instruction)
    requires
        delegation_pda(*owner) is Some,
    ensures
        r@ == delegation_instruction(
            delegation_program_key()->0,
            *owner,
            (delegation_pda(*owner)->0).0,
            discriminator("global:initialize_delegate"@),
            amount,
        ),
        r@.data.len() == 16,
        r@.accounts.len() == 3,
{
    let (pda, _) = find_delegation_pda(owner);
    let mut ix_data = discriminator_of("global:initialize_delegate");
    let args = InitializeDelegateArgs { amount };
    append(&mut ix_data, args.try_to_vec());
    build_instruction(get_delegation_program_id(), owner, pda, ix_data)
}

/// The instruction that adds `amount` lamports to `owner`'s delegation.
pub fn create_topup_instruction(owner: &Pubkey, amount: u64) -> (r: Instruction)
    requires
        delegation_pda(*owner) is Some,
    ensures
        r@ == delegation_instruction(
            delegation_program_key()->0,
            *owner,
            (delegation_pda(*owner)->0).0,
            discriminator("global:top_up"@),
            amount,
        ),
        r@.data.len() == 16,
        r@.accounts.len() == 3,
{
    let (pda, _) = find_delegation_pda(owner);
    let mut ix_data = discriminator_of("global:top_up");
    append(&mut ix_data, write_u64_le(amount));
    build_instruction(get_delegation_program_id(), owner, pda, ix_data)
}

/// The instruction that withdraws `amount` lamports from delegation
/// account `pda` to `owner`.
pub fn create_withdrawal_instruction(pda: &Pubkey, owner: &Pubkey, amount: u64) -> (r: Instruction)
    requires
        delegation_program_key() is Some,
    ensures
        r@ == delegation_instruction(
            delegation_program_key()->0,
            *owner,
            *pda,
            discriminator("global:withdraw"@),
            amount,
        ),
        r@.data.len() == 16,
        r@.accounts.len() == 3,
{
    let mut ix_data = discriminator_of("global:withdraw");
    append(&mut ix_data, write_u64_le(amount));
    build_instruction(get_delegation_program_id(), owner, *pda, ix_data)
}

/// The instruction that opens `owner`'s delegation with `amount`
/// lamports, or `None` when `owner` has no delegation account address.
pub fn try_create_delegation_instruction(owner: &Pubkey, amount: u64) -> (r: Option<Instruction>)
    ensures
        r is Some <==> delegation_pda(*owner) is Some,
        r matches Some(ix) ==> ix@ == delegation_instruction(
            delegation_program_key()->0,
            *owner,
            (delegation_pda(*owner)->0).0,
            discriminator("global:initialize_delegate"@),
            amount,
        ),
{
    match try_find_delegation_pda(owner) {
        Some(_) => Some(create_delegation_instruction(owner, amount)),
        None => None,
    }
}

/// The instruction that adds `amount` lamports to `owner`'s delegation,
/// or `None` when `owner` has no delegation account address.
pub fn try_create_topup_instruction(owner: &Pubkey, amount: u64) -> (r: Option<Instruction>)
    ensures
        r is Some <==> delegation_pda(*owner) is Some,
        r matches Some(ix) ==> ix@ == delegation_instruction(
            delegation_program_key()->0,
            *owner,
            (delegation_pda(*owner)->0).0,
            discriminator("global:top_up"@),
            amount,
        ),
{
    match try_find_delegation_pda(owner) {
        Some(_) => Some(create_topup_instruction(owner, amount)),
        None => None,
    }
}

/// The instruction that withdraws `amount` lamports from delegation
/// account `pda` to `owner`, or `None` when the program's address does
/// not parse.
pub fn try_create_withdrawal_instruction(pda: &Pubkey, owner: &Pubkey, amount: u64) -> (r: Option<Instruction>)
    ensures
        r is Some <==> delegation_program_key() is Some,
        r matches Some(ix) ==> ix@ == delegation_instruction(
            delegation_program_key()->0,
            *owner,
            *pda,
            discriminator("global:withdraw"@),
            amount,
        ),
{
    match try_get_delegation_program_id() {
        Some(_) => Some(create_withdrawal_instruction(pda, owner, amount)),
        None => None,
    }
}

/// The arguments of the program's `initialize_delegate` instruction.
pub struct InitializeDelegateArgs {
    pub amount: u64,
}

impl InitializeDelegateArgs {
    /// The borsh encoding: the amount's eight little-endian bytes.
    pub fn try_to_vec(&self) -> (r: Vec<u8>)
        ensures
            r@ == u64_le(self.amount),
            r@.len() == 8,
    {
        proof {
            lemma_le_bytes_len(self.amount as nat, 8);
        }
        borsh_u64(self.amount)
    }
}

/// The state the program keeps in a delegation account, after the
/// account's eight-byte tag.
pub struct DelegatedAccount {
    pub owner: Pubkey,
    pub delegated_amount: u64,
    pub last_deposit_time: i64,
    pub bump: u8,
}

/// The borsh layout of a delegation account: the owner's 32 bytes, the
/// amount and the deposit time as eight little-endian bytes each, the bump.
pub open spec fn delegated_account_bytes(a: DelegatedAccount) -> Seq<u8> {
    a.owner@ + u64_le(a.delegated_amount) + le_bytes(i64_bits(a.last_deposit_time), 8) + seq![a.bump]
}

/// The delegation account that `data` encodes, if any.
pub open spec fn decode_delegated_account(data: Seq<u8>) -> Option<DelegatedAccount> {
    if exists|a: DelegatedAccount| delegated_account_bytes(a) == data {
        Some(choose|a: DelegatedAccount| delegated_account_bytes(a) == data)
    } else {
        None
    }
}

proof fn lemma_delegated_bytes_len(a: DelegatedAccount)
    ensures
        delegated_account_bytes(a).len() == 49,
        delegated_account_bytes(a).subrange(0, 32) == a.owner@,
        delegated_account_bytes(a).subrange(32, 40) == u64_le(a.delegated_amount),
        delegated_account_bytes(a).subrange(40, 48) == le_bytes(i64_bits(a.last_deposit_time), 8),
        delegated_account_bytes(a)[48] == a.bump,
{
    lemma_pow256_8();
    lemma_le_roundtrip(a.delegated_amount as nat, 8);
    lemma_le_roundtrip(i64_bits(a.last_deposit_time), 8);
    let b = delegated_account_bytes(a);
    assert(b.subrange(0, 32) =~= a.owner@);
    assert(b.subrange(32, 40) =~= u64_le(a.delegated_amount));
    assert(b.subrange(40, 48) =~= le_bytes(i64_bits(a.last_deposit_time), 8));
}

/// A delegation account's encoding is never empty.
pub proof fn lemma_delegated_bytes_nonempty(a: DelegatedAccount)
    ensures
        delegated_account_bytes(a).len() == 49,
{
    lemma_delegated_bytes_len(a);
}

/// Different delegation accounts have different encodings.
pub proof fn lemma_delegated_bytes_injective(a: DelegatedAccount, b: DelegatedAccount)
    requires
        delegated_account_bytes(a) == delegated_account_bytes(b),
    ensures
        a == b,
{
    lemma_delegated_bytes_len(a);
    lemma_delegated_bytes_len(b);
    lemma_pow256_8();
    lemma_le_roundtrip(a.delegated_amount as nat, 8);
    lemma_le_roundtrip(b.delegated_amount as nat, 8);
    lemma_le_roundtrip(i64_bits(a.last_deposit_time), 8);
    lemma_le_roundtrip(i64_bits(b.last_deposit_time), 8);
    assert(a.owner =~= b.owner);
}

impl DelegatedAccount {
    /// The borsh encoding of the account.
    pub fn try_to_vec(&self) -> (r: Vec<u8>)
        ensures
            r@ == delegated_account_bytes(*self),
    {
        let mut out: Vec<u8> = Vec::new();
        let mut i: usize = 0;
        while i < 32
            invariant
                0 <= i <= 32,
                out@ == self.owner@.subrange(0, i as int),
            decreases 32 - i,
        {
            out.push(self.owner[i]);
            i = i + 1;
            assert(out@ =~= self.owner@.subrange(0, i as int));
        }
        assert(self.owner@.subrange(0, 32) =~= self.owner@);
        append(&mut out, write_u64_le(self.delegated_amount));
        append(&mut out, write_u64_le(i64_to_bits(self.last_deposit_time)));
        out.push(self.bump);
        out
    }

    /// Decodes an account from exactly 49 bytes of borsh; `None` when the
    /// length differs.
    pub fn try_from_slice(data: &[u8]) -> (r: Option<DelegatedAccount>)
        ensures
            r == decode_delegated_account(data@),
            r is Some <==> data@.len() == 49,
    {
        if data.len() != 49 {
            proof {
                if exists|a: DelegatedAccount| delegated_account_bytes(a) == data@ {
                    let a = choose|a: DelegatedAccount| delegated_account_bytes(a) == data@;
                    lemma_delegated_bytes_len(a);
                }
            }
            return None;
        }
        let mut owner: Pubkey = [0u8; 32];
        let mut i: usize = 0;
        while i < 32
            invariant
                0 <= i <= 32,
                data@.len() == 49,
                forall|j: int| 0 <= j < i ==> owner@[j] == data@[j],
            decreases 32 - i,
        {
            owner[i] = data[i];
            i = i + 1;
        }
        let amount: u64 = read_u64_le(data, 32);
        let bits: u64 = read_u64_le(data, 40);
        let time: i64 = i64_of_bits(bits);
        let bump: u8 = data[48];
        let r = DelegatedAccount { owner, delegated_amount: amount, last_deposit_time: time, bump };
        proof {
            lemma_pow256_8();
            lemma_le_value_bound(data@.subrange(32, 40));
            lemma_le_bytes_of_value(data@.subrange(32, 40));
            lemma_le_bytes_of_value(data@.subrange(40, 48));
            assert(i64_bits(time) == bits as nat);
            assert(owner@ =~= data@.subrange(0, 32));
            assert(delegated_account_bytes(r) =~= data@);
            assert forall|a: DelegatedAccount| delegated_account_bytes(a) == data@ implies a == r by {
                lemma_delegated_bytes_injective(a, r);
            }
        }
        Some(r)
    }
}

/// Encoding a delegation account and decoding the bytes gives it back.
pub proof fn lemma_delegated_account_roundtrip(a: DelegatedAccount)
    ensures
        decode_delegated_account(delegated_account_bytes(a)) == Some(a),
{
    assert forall|b: DelegatedAccount| delegated_account_bytes(b) == delegated_account_bytes(a) implies b == a by {
        lemma_delegated_bytes_injective(a, b);
    }
}

/// The opening and the top-up instruction for the same owner and amount
/// differ at most in their eight-byte tags: same program, same accounts,
/// sixteen data bytes each, the same amount bytes after the tag.
pub proof fn lemma_topup_and_opening_share_layout(program: Pubkey, owner: Pubkey, pda: Pubkey, opening_tag: Seq<u8>, topup_tag: Seq<u8>, amount: u64)
    requires
        opening_tag.len() == 8,
        topup_tag.len() == 8,
    ensures
        ({
            let d = delegation_instruction(program, owner, pda, opening_tag, amount);
            let t = delegation_instruction(program, owner, pda, topup_tag, amount);
            &&& t.program_id == d.program_id
            &&& t.accounts == d.accounts
            &&& t.data.len() == 16 && d.data.len() == 16
            &&& t.data.subrange(8, 16) == d.data.subrange(8, 16)
            &&& t.data.subrange(0, 8) == topup_tag && d.data.subrange(0, 8) == opening_tag
        }),
{
    lemma_le_bytes_len(amount as nat, 8);
    let d = delegation_instruction(program, owner, pda, opening_tag, amount);
    let t = delegation_instruction(program, owner, pda, topup_tag, amount);
    assert(t.data.subrange(8, 16) =~= u64_le(amount));
    assert(d.data.subrange(8, 16) =~= u64_le(amount));
    assert(t.data.subrange(0, 8) =~= topup_tag);
    assert(d.data.subrange(0, 8) =~= opening_tag);
}

} // verus!
