use rollup_core::client::{gen_transfer_tx, plan_transfer};
use rollup_core::codec::{i64_of_bits, i64_to_bits, read_u64_le, write_u64_le};
use rollup_core::frontend::{
    get_transaction_request, get_transaction_response, submit_transaction, FrontendMessage,
    GetTransaction, RollupTransaction, TransactionResponse,
};
use rollup_core::bytes::Keypair;
use rollup_core::loader::RollupAccountLoader;
use rollup_core::rollupdb::{RollupDB, RollupDBMessage};
use rollup_core::sequencer::Sequencer;
use rollup_core::types::{Account, Message, MessageHeader, Transaction};
use solana_sdk::signature::{Keypair as SdkKeypair, Signer};

fn account(lamports: u64, owner: u8) -> Account {
    Account { lamports, data: vec![1, 2, 3], owner: [owner; 32], executable: false, rent_epoch: 0 }
}

fn tx_with_keys(keys: Vec<[u8; 32]>) -> Transaction {
    Transaction {
        signatures: Vec::new(),
        message: Message {
            header: MessageHeader { num_required_signatures: 1, num_readonly_signed_accounts: 0, num_readonly_unsigned_accounts: 0 },
            account_keys: keys,
            recent_blockhash: [0u8; 32],
            instructions: Vec::new(),
        },
    }
}

#[test]
fn le_u64_roundtrip() {
    let bytes = write_u64_le(0x1122_3344_5566_7788);
    assert_eq!(bytes, 0x1122_3344_5566_7788u64.to_le_bytes().to_vec());
    let mut padded = vec![9u8, 9];
    padded.extend(bytes);
    assert_eq!(read_u64_le(&padded, 2), 0x1122_3344_5566_7788);
}

#[test]
fn i64_bits_roundtrip() {
    for v in [0i64, 1, -1, i64::MIN, i64::MAX, -123456789] {
        assert_eq!(i64_to_bits(v), v as u64);
        assert_eq!(i64_of_bits(v as u64), v);
    }
}

#[test]
fn loader_caches_and_replaces_accounts() {
    let mut loader = RollupAccountLoader::new();
    assert!(!loader.is_cached(&[1u8; 32]));
    assert!(loader.get_account_shared_data(&[1u8; 32], None).is_none());
    loader.add_account([1u8; 32], account(10, 5));
    assert!(loader.is_cached(&[1u8; 32]));
    assert_eq!(loader.get_account_shared_data(&[1u8; 32], None).unwrap().lamports, 10);
    loader.add_account([1u8; 32], account(20, 6));
    let got = loader.get_account_shared_data(&[1u8; 32], Some(account(99, 9))).unwrap();
    assert_eq!(got.lamports, 20);
    assert_eq!(got.owner, [6u8; 32]);
    assert_eq!(got.data, vec![1, 2, 3]);
}

#[test]
fn loader_reads_base_chain_once() {
    let mut loader = RollupAccountLoader::new();
    let first = loader.get_account_shared_data(&[3u8; 32], Some(account(7, 1))).unwrap();
    assert_eq!(first.lamports, 7);
    assert!(loader.is_cached(&[3u8; 32]));
    let again = loader.get_account_shared_data(&[3u8; 32], Some(account(8, 2))).unwrap();
    assert_eq!(again.lamports, 7);
    assert_eq!(again.owner, [1u8; 32]);
}

#[test]
fn loader_finds_owner_position() {
    let mut loader = RollupAccountLoader::new();
    loader.add_account([1u8; 32], account(10, 5));
    let owners = [[4u8; 32], [5u8; 32], [5u8; 32]];
    assert_eq!(loader.account_matches_owners(&[1u8; 32], &owners, None), Some(1));
    assert_eq!(loader.account_matches_owners(&[1u8; 32], &owners[..1], None), None);
    assert_eq!(loader.account_matches_owners(&[2u8; 32], &owners, None), None);
    assert_eq!(loader.account_matches_owners(&[2u8; 32], &owners, Some(account(1, 4))), Some(0));
}

#[test]
fn sequencer_settles_every_tenth_transaction() {
    let mut seq = Sequencer::new();
    let mut settlements = 0;
    for round in 0..3 {
        for i in 1..=10 {
            let tx = tx_with_keys(vec![[i as u8; 32], [round as u8; 32]]);
            let lock = Sequencer::lock_request(&tx);
            assert_eq!(lock.lock_accounts.unwrap(), vec![[i as u8; 32], [round as u8; 32]]);
            assert!(lock.add_processed_transaction.is_none());
            let step = seq.on_transaction(tx, true);
            assert_eq!(step.settle, i == 10);
            if step.settle {
                settlements += 1;
            }
            let processed = step.store_message.add_processed_transaction.unwrap();
            assert_eq!(processed.message.account_keys[0], [i as u8; 32]);
            assert!(step.store_message.lock_accounts.is_none());
            assert!(step.store_message.unlock_accounts.is_none());
        }
    }
    assert_eq!(settlements, 3);
}

#[test]
fn sequencer_does_not_store_failed_transactions() {
    let mut seq = Sequencer::new();
    let step = seq.on_transaction(tx_with_keys(vec![[4u8; 32]]), false);
    assert!(step.store_message.add_processed_transaction.is_none());
    assert_eq!(step.store_message.unlock_accounts.unwrap(), vec![[4u8; 32]]);
    assert!(!step.settle);
}

fn signed_transfer(from: &SdkKeypair) -> solana_sdk::transaction::Transaction {
    let to = solana_sdk::pubkey::Pubkey::new_unique();
    let ix = solana_sdk::system_instruction::transfer(&from.pubkey(), &to, 5);
    solana_sdk::transaction::Transaction::new_signed_with_payer(
        &[ix],
        Some(&from.pubkey()),
        &[from],
        solana_sdk::hash::Hash::new_from_array([8u8; 32]),
    )
}

fn lib_transaction(tx: &solana_sdk::transaction::Transaction) -> Transaction {
    let m = &tx.message;
    Transaction {
        signatures: tx.signatures.iter().map(|s| {
            let mut a = [0u8; 64];
            a.copy_from_slice(s.as_ref());
            a
        }).collect(),
        message: Message {
            header: MessageHeader {
                num_required_signatures: m.header.num_required_signatures,
                num_readonly_signed_accounts: m.header.num_readonly_signed_accounts,
                num_readonly_unsigned_accounts: m.header.num_readonly_unsigned_accounts,
            },
            account_keys: m.account_keys.iter().map(|k| k.to_bytes()).collect(),
            recent_blockhash: m.recent_blockhash.to_bytes(),
            instructions: m.instructions.iter().map(|c| rollup_core::types::CompiledInstruction {
                program_id_index: c.program_id_index,
                accounts: c.accounts.clone(),
                data: c.data.clone(),
            }).collect(),
        },
    }
}

#[test]
fn sequencer_stores_correctly_signed_transaction() {
    let from = SdkKeypair::new();
    let tx = lib_transaction(&signed_transfer(&from));
    let keys = tx.message.account_keys.clone();
    let mut seq = Sequencer::new();
    let step = seq.on_transaction(tx, true);
    let stored = step.store_message.add_processed_transaction.unwrap();
    assert_eq!(stored.message.account_keys, keys);
    assert!(step.store_message.unlock_accounts.is_none());
}

#[test]
fn sequencer_rejects_forged_signature() {
    let from = SdkKeypair::new();
    let mut tx = lib_transaction(&signed_transfer(&from));
    tx.signatures[0][10] ^= 0xff;
    let keys = tx.message.account_keys.clone();
    let mut seq = Sequencer::new();
    let step = seq.on_transaction(tx, true);
    assert!(step.store_message.add_processed_transaction.is_none());
    assert_eq!(step.store_message.unlock_accounts.unwrap(), keys);
}

#[test]
fn sequencer_rejects_zero_signature() {
    let mut tx = tx_with_keys(vec![[4u8; 32]]);
    tx.signatures.push([0u8; 64]);
    let mut seq = Sequencer::new();
    let step = seq.on_transaction(tx, true);
    assert!(step.store_message.add_processed_transaction.is_none());
    assert_eq!(step.store_message.unlock_accounts.unwrap(), vec![[4u8; 32]]);
}

fn msg() -> RollupDBMessage {
    RollupDBMessage { lock_accounts: None, add_processed_transaction: None, frontend_get_tx: None, add_settle_proof: None, unlock_accounts: None, add_new_data: None }
}

#[test]
fn store_locks_and_unlocks_accounts() {
    let mut db = RollupDB::new();
    let mut load = msg();
    load.add_new_data = Some(vec![([1u8; 32], account(5, 1)), ([2u8; 32], account(6, 1))]);
    assert!(db.handle_message(load).is_none());
    let mut lock = msg();
    lock.lock_accounts = Some(vec![[1u8; 32], [9u8; 32], [1u8; 32]]);
    assert!(db.can_handle(&lock));
    assert!(db.handle_message(lock).is_none());
    // a processed transaction naming the locked account unlocks it
    let tx = tx_with_keys(vec![[1u8; 32]]);
    let id = sdk_message(&tx).hash().to_bytes();
    let mut add = msg();
    add.add_processed_transaction = Some(tx);
    assert!(db.handle_message(add).is_none());
    let mut get = msg();
    get.frontend_get_tx = Some(id);
    assert!(db.can_handle(&get));
    assert!(db.handle_message(get).is_some());
    let mut unlock = msg();
    unlock.unlock_accounts = Some(vec![[2u8; 32]]);
    assert!(db.handle_message(unlock).is_none());
}

fn sdk_message(tx: &Transaction) -> solana_sdk::message::Message {
    let m = &tx.message;
    solana_sdk::message::Message {
        header: solana_sdk::message::MessageHeader {
            num_required_signatures: m.header.num_required_signatures,
            num_readonly_signed_accounts: m.header.num_readonly_signed_accounts,
            num_readonly_unsigned_accounts: m.header.num_readonly_unsigned_accounts,
        },
        account_keys: m.account_keys.iter().map(|k| solana_sdk::pubkey::Pubkey::new_from_array(*k)).collect(),
        recent_blockhash: solana_sdk::hash::Hash::new_from_array(m.recent_blockhash),
        instructions: Vec::new(),
    }
}

#[test]
fn store_serves_processed_transaction_by_message_hash() {
    let mut db = RollupDB::new();
    let tx = tx_with_keys(vec![[1u8; 32], [2u8; 32]]);
    let id = sdk_message(&tx).hash().to_bytes();
    let get = RollupDBMessage { lock_accounts: None, add_processed_transaction: None, frontend_get_tx: Some(id), add_settle_proof: None, unlock_accounts: None, add_new_data: None };
    assert!(!db.can_handle(&get));
    let add = RollupDBMessage { lock_accounts: None, add_processed_transaction: Some(tx), frontend_get_tx: None, add_settle_proof: None, unlock_accounts: None, add_new_data: None };
    assert!(db.can_handle(&add));
    assert!(db.handle_message(add).is_none());
    assert!(db.can_handle(&get));
    let reply = db.handle_message(get).unwrap();
    assert!(reply.get_tx.is_none());
    assert_eq!(reply.transaction.unwrap().message.account_keys, vec![[1u8; 32], [2u8; 32]]);
}

#[test]
fn store_skips_unknown_accounts_when_locking() {
    let mut db = RollupDB::new();
    let lock = RollupDBMessage { lock_accounts: Some(vec![[1u8; 32]]), add_processed_transaction: None, frontend_get_tx: None, add_settle_proof: None, unlock_accounts: None, add_new_data: None };
    assert!(db.can_handle(&lock));
    assert!(db.handle_message(lock).is_none());
}

#[test]
fn store_ignores_settle_proof_and_empty_lock() {
    let mut db = RollupDB::new();
    let lock = RollupDBMessage { lock_accounts: Some(Vec::new()), add_processed_transaction: None, frontend_get_tx: None, add_settle_proof: None, unlock_accounts: None, add_new_data: None };
    assert!(db.can_handle(&lock));
    assert!(db.handle_message(lock).is_none());
    let proof = RollupDBMessage { lock_accounts: None, add_processed_transaction: None, frontend_get_tx: None, add_settle_proof: Some("proof".to_string()), unlock_accounts: None, add_new_data: None };
    assert!(db.handle_message(proof).is_none());
}

#[test]
fn submit_replies_success() {
    let body = RollupTransaction { sender: "me".to_string(), sol_transaction: tx_with_keys(vec![[8u8; 32]]) };
    let (tx, reply) = submit_transaction(body);
    assert_eq!(tx.message.account_keys, vec![[8u8; 32]]);
    match reply {
        TransactionResponse::Success { message } => assert_eq!(message, "Transaction submitted"),
        TransactionResponse::Error { .. } => panic!("expected success"),
    }
}

#[test]
fn transaction_request_uses_string_bytes() {
    let id = "0123456789abcdef0123456789abcdef";
    let msg = get_transaction_request(&GetTransaction { get_tx: id.to_string() });
    let mut expected = [0u8; 32];
    expected.copy_from_slice(id.as_bytes());
    assert_eq!(msg.frontend_get_tx, Some(expected));
    assert!(msg.lock_accounts.is_none());
    assert!(msg.add_processed_transaction.is_none());
}

#[test]
fn transaction_response_reports_status() {
    let found = FrontendMessage { get_tx: None, transaction: Some(tx_with_keys(Vec::new())) };
    assert_eq!(
        get_transaction_response(Some(&found)),
        ("Requested transaction status".to_string(), "gotten successfully".to_string())
    );
    assert_eq!(get_transaction_response(None), ("Transaction status".to_string(), "requested".to_string()));
}

#[test]
fn client_plans_transfers_in_tenths() {
    assert_eq!(plan_transfer(5), (true, 500_000_000));
    assert_eq!(plan_transfer(-3), (false, 300_000_000));
    assert_eq!(plan_transfer(0), (false, 0));
}

#[test]
fn client_transfer_is_signed_by_payer() {
    let to = SdkKeypair::new();
    let from = SdkKeypair::new();
    let bytes = gen_transfer_tx(&Keypair::from_array(to.to_bytes()).unwrap(), &Keypair::from_array(from.to_bytes()).unwrap(), 7, &[1u8; 32]);
    let tx: solana_sdk::transaction::Transaction = bincode::deserialize(&bytes).unwrap();
    assert!(tx.verify().is_ok());
    let expected = solana_sdk::system_instruction::transfer(&from.pubkey(), &to.pubkey(), 700_000_000);
    let reference = solana_sdk::transaction::Transaction::new_signed_with_payer(
        &[expected],
        Some(&from.pubkey()),
        &[&from],
        solana_sdk::hash::Hash::new_from_array([1u8; 32]),
    );
    assert_eq!(bincode::serialize(&reference).unwrap(), bytes);
}
