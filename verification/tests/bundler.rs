use rollup_core::bundler::{get_transaction_instructions, is_transfer_ix, TransferBundler};
use rollup_core::bytes::{key_eq, key_lt, Pubkey};
use rollup_core::types::{
    AccountMeta, CompiledInstruction, Instruction, Message, MessageHeader, Transaction,
};
use solana_sdk::signature::{Keypair as SdkKeypair, Signer};

fn key(b: u8) -> Pubkey {
    [b; 32]
}

fn lib_tx(tx: &solana_sdk::transaction::Transaction) -> Transaction {
    let m = &tx.message;
    Transaction {
        signatures: tx.signatures.iter().map(|s| {
            let mut a = [0u8; 64];
            a.copy_from_slice(s.as_ref());
            a
        }).collect(),
        message: Message {
            header: MessageHeader {
                num_required_signatures: m.header.num_required_signatures,
                num_readonly_signed_accounts: m.header.num_readonly_signed_accounts,
                num_readonly_unsigned_accounts: m.header.num_readonly_unsigned_accounts,
            },
            account_keys: m.account_keys.iter().map(|k| k.to_bytes()).collect(),
            recent_blockhash: m.recent_blockhash.to_bytes(),
            instructions: m.instructions.iter().map(|c| CompiledInstruction {
                program_id_index: c.program_id_index,
                accounts: c.accounts.clone(),
                data: c.data.clone(),
            }).collect(),
        },
    }
}

fn transfer_tx(from: &SdkKeypair, to: &solana_sdk::pubkey::Pubkey, lamports: u64) -> Transaction {
    let ix = solana_sdk::system_instruction::transfer(&from.pubkey(), to, lamports);
    let tx = solana_sdk::transaction::Transaction::new_signed_with_payer(
        &[ix],
        Some(&from.pubkey()),
        &[from],
        solana_sdk::hash::Hash::default(),
    );
    lib_tx(&tx)
}

fn lib_ix(ix: &solana_sdk::instruction::Instruction) -> Instruction {
    Instruction {
        program_id: ix.program_id.to_bytes(),
        accounts: ix.accounts.iter().map(|m| AccountMeta {
            pubkey: m.pubkey.to_bytes(),
            is_signer: m.is_signer,
            is_writable: m.is_writable,
        }).collect(),
        data: ix.data.clone(),
    }
}

fn same_ix(a: &Instruction, b: &Instruction) -> bool {
    a.program_id == b.program_id
        && a.data == b.data
        && a.accounts.len() == b.accounts.len()
        && a.accounts.iter().zip(b.accounts.iter()).all(|(x, y)| {
            x.pubkey == y.pubkey && x.is_signer == y.is_signer && x.is_writable == y.is_writable
        })
}

#[test]
fn key_order_is_lexicographic() {
    let mut a = key(1);
    let mut b = key(1);
    assert!(!key_lt(&a, &b));
    assert!(key_eq(&a, &b));
    b[31] = 2;
    assert!(key_lt(&a, &b));
    assert!(!key_lt(&b, &a));
    a[0] = 9;
    assert!(key_lt(&b, &a));
    assert!(!key_eq(&a, &b));
}

#[test]
fn transfer_instruction_is_recognised() {
    let payer = SdkKeypair::new();
    let to = solana_sdk::pubkey::Pubkey::new_unique();
    let tx = transfer_tx(&payer, &to, 42);
    let ixs = get_transaction_instructions(&tx);
    assert_eq!(ixs.len(), 1);
    assert!(is_transfer_ix(&ixs[0], &tx.message.account_keys));
    let parsed = TransferBundler::parse_compiled_instruction(&ixs[0], &tx.message.account_keys);
    assert_eq!(parsed, Some((payer.pubkey().to_bytes(), to.to_bytes(), 42i128)));
}

#[test]
fn non_transfer_system_instruction_is_not_a_transfer() {
    let payer = SdkKeypair::new();
    let ix = solana_sdk::system_instruction::assign(&payer.pubkey(), &solana_sdk::pubkey::Pubkey::new_unique());
    let tx = solana_sdk::transaction::Transaction::new_signed_with_payer(
        &[ix],
        Some(&payer.pubkey()),
        &[&payer],
        solana_sdk::hash::Hash::default(),
    );
    let tx = lib_tx(&tx);
    assert!(!is_transfer_ix(&tx.message.instructions[0], &tx.message.account_keys));
}

#[test]
fn instruction_of_other_program_is_not_a_transfer() {
    let keys = vec![key(7), key(8)];
    let cix = CompiledInstruction { program_id_index: 0, accounts: vec![0, 1], data: vec![2, 0, 0, 0, 1, 0, 0, 0, 0, 0, 0, 0] };
    assert!(!is_transfer_ix(&cix, &keys));
    assert_eq!(TransferBundler::parse_compiled_instruction(&cix, &keys), None);
    let out_of_range = CompiledInstruction { program_id_index: 5, accounts: vec![0, 1], data: vec![2, 0, 0, 0] };
    assert!(!is_transfer_ix(&out_of_range, &keys));
}

#[test]
fn short_transfer_data_is_not_a_transfer() {
    let keys = vec![key(0), key(8), key(9)];
    let cix = CompiledInstruction { program_id_index: 0, accounts: vec![1, 2], data: vec![2, 0, 0, 0, 1, 0, 0] };
    assert!(!is_transfer_ix(&cix, &keys));
    assert_eq!(TransferBundler::parse_compiled_instruction(&cix, &keys), None);
    let eight = CompiledInstruction { program_id_index: 0, accounts: vec![1, 2], data: vec![2, 0, 0, 0, 1, 0, 0, 0] };
    assert_eq!(TransferBundler::parse_compiled_instruction(&eight, &keys), None);
    let eleven = CompiledInstruction { program_id_index: 0, accounts: vec![1, 2], data: vec![2, 0, 0, 0, 1, 0, 0, 0, 0, 0, 0] };
    assert_eq!(TransferBundler::parse_compiled_instruction(&eleven, &keys), None);
    let one_account = CompiledInstruction { program_id_index: 0, accounts: vec![1], data: vec![2, 0, 0, 0, 1, 0, 0, 0, 0, 0, 0, 0] };
    assert_eq!(TransferBundler::parse_compiled_instruction(&one_account, &keys), None);
}

#[test]
fn parse_instruction_reads_sdk_transfer() {
    let from = solana_sdk::pubkey::Pubkey::new_unique();
    let to = solana_sdk::pubkey::Pubkey::new_unique();
    let ix = lib_ix(&solana_sdk::system_instruction::transfer(&from, &to, 1_000_000_007));
    assert_eq!(
        TransferBundler::parse_instruction(&ix),
        Some((from.to_bytes(), to.to_bytes(), 1_000_000_007i128))
    );
    let mut longer = lib_ix(&solana_sdk::system_instruction::transfer(&from, &to, 5));
    longer.data.push(0);
    assert_eq!(TransferBundler::parse_instruction(&longer), None);
    let mut other = lib_ix(&solana_sdk::system_instruction::transfer(&from, &to, 5));
    other.program_id = key(3);
    assert_eq!(TransferBundler::parse_instruction(&other), None);
}

#[test]
fn opposite_transfers_net_to_one_instruction() {
    let a = SdkKeypair::new();
    let b = SdkKeypair::new();
    let mut bundler = TransferBundler::new();
    bundler.bundle(transfer_tx(&a, &b.pubkey(), 500));
    bundler.bundle(transfer_tx(&b, &a.pubkey(), 300));
    bundler.bundle(transfer_tx(&a, &b.pubkey(), 50));
    let out = bundler.generate_final();
    assert_eq!(out.len(), 1);
    let expected = lib_ix(&solana_sdk::system_instruction::transfer(&a.pubkey(), &b.pubkey(), 250));
    assert!(same_ix(&out[0], &expected));
}

#[test]
fn net_flow_towards_lower_key_is_paid_by_higher_key() {
    let a = SdkKeypair::new();
    let b = SdkKeypair::new();
    let mut bundler = TransferBundler::new();
    bundler.bundle(transfer_tx(&a, &b.pubkey(), 100));
    bundler.bundle(transfer_tx(&b, &a.pubkey(), 400));
    let out = bundler.generate_final();
    assert_eq!(out.len(), 1);
    let expected = lib_ix(&solana_sdk::system_instruction::transfer(&b.pubkey(), &a.pubkey(), 300));
    assert!(same_ix(&out[0], &expected));
}

#[test]
fn balanced_transfers_emit_nothing() {
    let a = SdkKeypair::new();
    let b = SdkKeypair::new();
    let mut bundler = TransferBundler::new();
    bundler.bundle(transfer_tx(&a, &b.pubkey(), 70));
    bundler.bundle(transfer_tx(&b, &a.pubkey(), 70));
    assert!(bundler.generate_final().is_empty());
}

#[test]
fn empty_bundler_emits_nothing() {
    assert!(TransferBundler::new().generate_final().is_empty());
}

#[test]
fn bundling_conserves_every_balance() {
    let ks: Vec<SdkKeypair> = (0..3).map(|_| SdkKeypair::new()).collect();
    let moves = [(0usize, 1usize, 10u64), (1, 2, 7), (2, 0, 3), (0, 2, 5), (1, 0, 4), (2, 1, 9)];
    let mut bundler = TransferBundler::new();
    let mut expected = [0i128; 3];
    for (f, t, amt) in moves {
        bundler.bundle(transfer_tx(&ks[f], &ks[t].pubkey(), amt));
        expected[f] -= amt as i128;
        expected[t] += amt as i128;
    }
    let out = bundler.generate_final();
    assert!(out.len() <= 3);
    let mut got = [0i128; 3];
    for ix in &out {
        let (from, to, amt) = TransferBundler::parse_instruction(ix).unwrap();
        assert!(amt > 0);
        for (i, k) in ks.iter().enumerate() {
            if k.pubkey().to_bytes() == from {
                got[i] -= amt;
            }
            if k.pubkey().to_bytes() == to {
                got[i] += amt;
            }
        }
    }
    assert_eq!(got, expected);
}

#[test]
fn non_transfer_instructions_are_not_bundled() {
    let payer = SdkKeypair::new();
    let ix = solana_sdk::system_instruction::assign(&payer.pubkey(), &solana_sdk::pubkey::Pubkey::new_unique());
    let tx = solana_sdk::transaction::Transaction::new_signed_with_payer(
        &[ix],
        Some(&payer.pubkey()),
        &[&payer],
        solana_sdk::hash::Hash::default(),
    );
    let mut bundler = TransferBundler::new();
    bundler.bundle(lib_tx(&tx));
    assert!(bundler.generate_final().is_empty());
}

#[test]
fn bundling_order_does_not_change_settlement() {
    let ks: Vec<SdkKeypair> = (0..3).map(|_| SdkKeypair::new()).collect();
    let moves = [(0usize, 1usize, 10u64), (1, 2, 7), (2, 0, 3), (0, 2, 5), (1, 0, 14)];
    let mut forward = TransferBundler::new();
    for (f, t, amt) in moves {
        forward.bundle(transfer_tx(&ks[f], &ks[t].pubkey(), amt));
    }
    let mut backward = TransferBundler::new();
    for (f, t, amt) in moves.iter().rev() {
        backward.bundle(transfer_tx(&ks[*f], &ks[*t].pubkey(), *amt));
    }
    let mut a: Vec<_> = forward.generate_final().iter().map(|ix| TransferBundler::parse_instruction(ix).unwrap()).collect();
    let mut b: Vec<_> = backward.generate_final().iter().map(|ix| TransferBundler::parse_instruction(ix).unwrap()).collect();
    a.sort();
    b.sort();
    assert_eq!(a, b);
    assert!(!a.is_empty());
}

#[test]
fn ten_transfers_settle_as_one() {
    let a = SdkKeypair::new();
    let b = SdkKeypair::new();
    let mut bundler = TransferBundler::new();
    for amt in 1..=10u64 {
        bundler.bundle(transfer_tx(&a, &b.pubkey(), amt));
    }
    let out = bundler.generate_final();
    assert_eq!(out.len(), 1);
    let expected = lib_ix(&solana_sdk::system_instruction::transfer(&a.pubkey(), &b.pubkey(), 55));
    assert!(same_ix(&out[0], &expected));
}
