//! The ledger values the rollup works on: instructions, messages,
//! transactions and accounts, held as plain bytes and integers.

use vstd::prelude::*;
use crate::bytes::{Hash32, Pubkey};

verus! {

/// A 64-byte transaction signature.
pub type Signature = [u8; 64];

/// An account an instruction touches, and how.
#[derive(Clone, Copy)]
pub struct AccountMeta {
    pub pubkey: Pubkey,
    pub is_signer: bool,
    pub is_writable: bool,
}

/// An instruction addressed to a program, with its accounts named by key.
pub struct Instruction {
    pub program_id: Pubkey,
    pub accounts: Vec<AccountMeta>,
    pub data: Vec<u8>,
}

pub struct InstructionView {
    pub program_id: Pubkey,
    pub accounts: Seq<AccountMeta>,
    pub data: Seq<u8>,
}

impl View for Instruction {
    type V = InstructionView;

    open spec fn view(&self) -> InstructionView {
        InstructionView { program_id: self.program_id, accounts: self.accounts@, data: self.data@ }
    }
}

/// An instruction inside a message, with its program and accounts named
/// by their index in the message's key list.
pub struct CompiledInstruction {
    pub program_id_index: u8,
    pub accounts: Vec<u8>,
    pub data: Vec<u8>,
}

pub struct CompiledInstructionView {
    pub program_id_index: u8,
    pub accounts: Seq<u8>,
    pub data: Seq<u8>,
}

impl View for CompiledInstruction {
    type V = CompiledInstructionView;

    open spec fn view(&self) -> CompiledInstructionView {
        CompiledInstructionView {
            program_id_index: self.program_id_index,
            accounts: self.accounts@,
            data: self.data@,
        }
    }
}

impl CompiledInstruction {
    /// A copy of this instruction.
    pub fn duplicate(&self) -> (r: CompiledInstruction)
        ensures
            r@ == self@,
    {
        let r = CompiledInstruction {
            program_id_index: self.program_id_index,
            accounts: self.accounts.clone(),
            data: self.data.clone(),
        };
        assert(r.accounts@ =~= self.accounts@);
        assert(r.data@ =~= self.data@);
        r
    }
}

/// How many of a message's keys sign, and how many are read-only.
#[derive(Clone, Copy)]
pub struct MessageHeader {
    pub num_required_signatures: u8,
    pub num_readonly_signed_accounts: u8,
    pub num_readonly_unsigned_accounts: u8,
}

/// The signed part of a transaction.
pub struct Message {
    pub header: MessageHeader,
    pub account_keys: Vec<Pubkey>,
    pub recent_blockhash: Hash32,
    pub instructions: Vec<CompiledInstruction>,
}

pub struct MessageView {
    pub header: MessageHeader,
    pub account_keys: Seq<Pubkey>,
    pub recent_blockhash: Hash32,
    pub instructions: Seq<CompiledInstructionView>,
}

impl View for Message {
    type V = MessageView;

    open spec fn view(&self) -> MessageView {
        MessageView {
            header: self.header,
            account_keys: self.account_keys@,
            recent_blockhash: self.recent_blockhash,
            instructions: self.instructions@.map_values(|c: CompiledInstruction| c@),
        }
    }
}

/// A message and the signatures over it.
pub struct Transaction {
    pub signatures: Vec<Signature>,
    pub message: Message,
}

pub struct TransactionView {
    pub signatures: Seq<Signature>,
    pub message: MessageView,
}

impl View for Transaction {
    type V = TransactionView;

    open spec fn view(&self) -> TransactionView {
        TransactionView { signatures: self.signatures@, message: self.message@ }
    }
}

/// A copy of a list of keys.
pub fn copy_keys(keys: &Vec<Pubkey>) -> (r: Vec<Pubkey>)
    ensures
        r@ == keys@,
{
    let mut out: Vec<Pubkey> = Vec::new();
    let mut i: usize = 0;
    while i < keys.len()
        invariant
            0 <= i <= keys@.len(),
            out@ == keys@.subrange(0, i as int),
        decreases keys@.len() - i,
    {
        out.push(keys[i]);
        i = i + 1;
        assert(out@ =~= keys@.subrange(0, i as int));
    }
    assert(keys@.subrange(0, keys@.len() as int) =~= keys@);
    out
}

/// A copy of a list of compiled instructions.
pub fn copy_instructions(ixs: &Vec<CompiledInstruction>) -> (r: Vec<CompiledInstruction>)
    ensures
        r@.map_values(|c: CompiledInstruction| c@) == ixs@.map_values(|c: CompiledInstruction| c@),
{
    let mut out: Vec<CompiledInstruction> = Vec::new();
    let mut i: usize = 0;
    while i < ixs.len()
        invariant
            0 <= i <= ixs@.len(),
            out@.len() == i,
            forall|j: int| 0 <= j < i ==> #[trigger] out@[j]@ == ixs@[j]@,
        decreases ixs@.len() - i,
    {
        out.push(ixs[i].duplicate());
        i = i + 1;
    }
    assert(out@.map_values(|c: CompiledInstruction| c@) =~= ixs@.map_values(
        |c: CompiledInstruction| c@,
    ));
    out
}

impl Message {
    /// A copy of this message.
    pub fn duplicate(&self) -> (r: Message)
        ensures
            r@ == self@,
    {
        Message {
            header: self.header,
            account_keys: copy_keys(&self.account_keys),
            recent_blockhash: self.recent_blockhash,
            instructions: copy_instructions(&self.instructions),
        }
    }
}

impl Transaction {
    /// A copy of this transaction.
    pub fn duplicate(&self) -> (r: Transaction)
        ensures
            r@ == self@,
    {
        let mut sigs: Vec<Signature> = Vec::new();
        let mut i: usize = 0;
        while i < self.signatures.len()
            invariant
                0 <= i <= self.signatures@.len(),
                sigs@ == self.signatures@.subrange(0, i as int),
            decreases self.signatures@.len() - i,
        {
            sigs.push(self.signatures[i]);
            i = i + 1;
            assert(sigs@ =~= self.signatures@.subrange(0, i as int));
        }
        assert(self.signatures@.subrange(0, self.signatures@.len() as int) =~= self.signatures@);
        Transaction { signatures: sigs, message: self.message.duplicate() }
    }
}

/// An account's state: balance, data, owning program.
pub struct Account {
    pub lamports: u64,
    pub data: Vec<u8>,
    pub owner: Pubkey,
    pub executable: bool,
    pub rent_epoch: u64,
}

pub struct AccountView {
    pub lamports: u64,
    pub data: Seq<u8>,
    pub owner: Pubkey,
    pub executable: bool,
    pub rent_epoch: u64,
}

impl View for Account {
    type V = AccountView;

    open spec fn view(&self) -> AccountView {
        AccountView {
            lamports: self.lamports,
            data: self.data@,
            owner: self.owner,
            executable: self.executable,
            rent_epoch: self.rent_epoch,
        }
    }
}

impl Account {
    /// A copy of this account.
    pub fn duplicate(&self) -> (r: Account)
        ensures
            r@ == self@,
    {
        let r = Account {
            lamports: self.lamports,
            data: self.data.clone(),
            owner: self.owner,
            executable: self.executable,
            rent_epoch: self.rent_epoch,
        };
        assert(r.data@ =~= self.data@);
        r
    }
}

} // verus!
