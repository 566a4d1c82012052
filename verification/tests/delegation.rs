use rollup_core::bytes::Keypair;
use rollup_core::delegation::{
    create_delegation_instruction, create_topup_instruction, create_withdrawal_instruction,
    find_delegation_pda, get_delegation_program_id, try_create_delegation_instruction,
    try_create_topup_instruction, try_create_withdrawal_instruction, try_find_delegation_pda,
    try_get_delegation_program_id, DelegatedAccount, InitializeDelegateArgs,
};
use rollup_core::delegation_service::{DelegationError, DelegationService};
use rollup_core::types::Account;
use sha2::Digest;
use solana_sdk::signature::{Keypair as SdkKeypair, Signer};
use std::str::FromStr;

fn program() -> solana_sdk::pubkey::Pubkey {
    solana_sdk::pubkey::Pubkey::from_str("5MSF4TiUfD7dVm7P1ahPYJfEBLCUQn7hEPYXYHocVwzh").unwrap()
}

fn tag(name: &str) -> Vec<u8> {
    sha2::Sha256::digest(format!("global:{name}").as_bytes())[..8].to_vec()
}

fn lib_keypair(k: &SdkKeypair) -> Keypair {
    Keypair::from_array(k.to_bytes()).unwrap()
}

fn account_with(data: Vec<u8>) -> Account {
    Account { lamports: 1, data, owner: program().to_bytes(), executable: false, rent_epoch: 0 }
}

fn sample_state(owner: [u8; 32]) -> DelegatedAccount {
    DelegatedAccount { owner, delegated_amount: 123_456_789, last_deposit_time: -5, bump: 254 }
}

#[test]
fn program_id_parses() {
    assert_eq!(get_delegation_program_id(), program().to_bytes());
    assert_eq!(try_get_delegation_program_id(), Some(program().to_bytes()));
}

#[test]
fn pda_matches_sdk_derivation() {
    let owner = solana_sdk::pubkey::Pubkey::new_unique();
    let (pda, bump) = solana_sdk::pubkey::Pubkey::find_program_address(&[b"delegate", owner.as_ref()], &program());
    assert_eq!(find_delegation_pda(&owner.to_bytes()), (pda.to_bytes(), bump));
    assert_eq!(try_find_delegation_pda(&owner.to_bytes()), Some((pda.to_bytes(), bump)));
}

#[test]
fn delegation_instruction_layout() {
    let owner = solana_sdk::pubkey::Pubkey::new_unique();
    let (pda, _) = solana_sdk::pubkey::Pubkey::find_program_address(&[b"delegate", owner.as_ref()], &program());
    let ix = create_delegation_instruction(&owner.to_bytes(), 77);
    assert_eq!(ix.program_id, program().to_bytes());
    let mut data = tag("initialize_delegate");
    data.extend_from_slice(&77u64.to_le_bytes());
    assert_eq!(ix.data, data);
    assert_eq!(ix.accounts.len(), 3);
    assert_eq!(ix.accounts[0].pubkey, owner.to_bytes());
    assert!(ix.accounts[0].is_signer && ix.accounts[0].is_writable);
    assert_eq!(ix.accounts[1].pubkey, pda.to_bytes());
    assert!(!ix.accounts[1].is_signer && ix.accounts[1].is_writable);
    assert_eq!(ix.accounts[2].pubkey, [0u8; 32]);
    assert!(!ix.accounts[2].is_signer && !ix.accounts[2].is_writable);
}

#[test]
fn topup_instruction_layout() {
    let owner = solana_sdk::pubkey::Pubkey::new_unique();
    let (pda, _) = solana_sdk::pubkey::Pubkey::find_program_address(&[b"delegate", owner.as_ref()], &program());
    let ix = create_topup_instruction(&owner.to_bytes(), u64::MAX);
    let mut data = tag("top_up");
    data.extend_from_slice(&u64::MAX.to_le_bytes());
    assert_eq!(ix.data, data);
    assert_eq!(ix.accounts[1].pubkey, pda.to_bytes());
}

#[test]
fn withdrawal_instruction_layout() {
    let owner = [4u8; 32];
    let pda = [5u8; 32];
    let ix = create_withdrawal_instruction(&pda, &owner, 1);
    let mut data = tag("withdraw");
    data.extend_from_slice(&1u64.to_le_bytes());
    assert_eq!(ix.data, data);
    assert_eq!(ix.accounts[0].pubkey, owner);
    assert_eq!(ix.accounts[1].pubkey, pda);
    assert_eq!(ix.program_id, program().to_bytes());
}

#[test]
fn initialize_args_encode_amount_little_endian() {
    assert_eq!(InitializeDelegateArgs { amount: 0x0102_0304_0506_0708 }.try_to_vec(), vec![8, 7, 6, 5, 4, 3, 2, 1]);
}

#[test]
fn delegated_account_roundtrip() {
    let a = sample_state([9u8; 32]);
    let bytes = a.try_to_vec();
    assert_eq!(bytes.len(), 49);
    assert_eq!(&bytes[32..40], &123_456_789u64.to_le_bytes());
    assert_eq!(&bytes[40..48], &(-5i64).to_le_bytes());
    assert_eq!(bytes[48], 254);
    let b = DelegatedAccount::try_from_slice(&bytes).unwrap();
    assert_eq!(b.owner, a.owner);
    assert_eq!(b.delegated_amount, a.delegated_amount);
    assert_eq!(b.last_deposit_time, a.last_deposit_time);
    assert_eq!(b.bump, a.bump);
}

#[test]
fn delegated_account_rejects_wrong_length() {
    let bytes = sample_state([1u8; 32]).try_to_vec();
    assert!(DelegatedAccount::try_from_slice(&bytes[..48]).is_none());
    let mut longer = bytes.clone();
    longer.push(0);
    assert!(DelegatedAccount::try_from_slice(&longer).is_none());
}

#[test]
fn service_opens_delegation_when_no_account_exists() {
    let user = SdkKeypair::new();
    let mut service = DelegationService::new(lib_keypair(&user));
    let blockhash = [3u8; 32];
    let bytes = service.create_delegation_transaction(&user.pubkey().to_bytes(), 10, None, &blockhash).ok().unwrap();
    let tx: solana_sdk::transaction::Transaction = bincode::deserialize(&bytes).unwrap();
    assert!(tx.verify().is_ok());
    assert_eq!(tx.message.recent_blockhash.to_bytes(), blockhash);
    assert_eq!(tx.message.account_keys[0], user.pubkey());
    let data = &tx.message.instructions[0].data;
    assert_eq!(&data[..8], &tag("initialize_delegate")[..]);
    assert_eq!(&data[8..], &10u64.to_le_bytes());
}

#[test]
fn service_tops_up_existing_delegation() {
    let user = SdkKeypair::new();
    let mut service = DelegationService::new(lib_keypair(&user));
    let mut data = vec![0u8; 8];
    data.extend(sample_state(user.pubkey().to_bytes()).try_to_vec());
    let fetched = account_with(data);
    let found = service.get_or_fetch_pda(&user.pubkey().to_bytes(), Some(fetched)).unwrap();
    let (pda, _) = find_delegation_pda(&user.pubkey().to_bytes());
    assert_eq!(found.0, pda);
    assert_eq!(found.1.delegated_amount, 123_456_789);

    let mut data = vec![0u8; 8];
    data.extend(sample_state(user.pubkey().to_bytes()).try_to_vec());
    let bytes = service
        .create_delegation_transaction(&user.pubkey().to_bytes(), 4, Some(account_with(data)), &[0u8; 32])
        .ok()
        .unwrap();
    let tx: solana_sdk::transaction::Transaction = bincode::deserialize(&bytes).unwrap();
    assert!(tx.verify().is_ok());
    assert_eq!(&tx.message.instructions[0].data[..8], &tag("top_up")[..]);
}

#[test]
fn undecodable_account_is_not_a_delegation() {
    let user = SdkKeypair::new();
    let mut service = DelegationService::new(lib_keypair(&user));
    assert!(service.get_or_fetch_pda(&user.pubkey().to_bytes(), Some(account_with(vec![1u8; 8]))).is_none());
    assert!(service.get_or_fetch_pda(&user.pubkey().to_bytes(), Some(account_with(vec![1u8; 20]))).is_none());
    assert!(service.get_or_fetch_pda(&user.pubkey().to_bytes(), None).is_none());
}

#[test]
fn service_without_signer_refuses() {
    let user = SdkKeypair::new();
    let stranger = SdkKeypair::new();
    let mut service = DelegationService::new(lib_keypair(&user));
    let r = service.create_delegation_transaction(&stranger.pubkey().to_bytes(), 1, None, &[0u8; 32]);
    match r {
        Err(DelegationError::NoDelegationSigner(k)) => assert_eq!(k, stranger.pubkey().to_bytes()),
        _ => panic!("expected a missing signer"),
    }
    let w = service.create_withdrawal_transaction(&[1u8; 32], &stranger.pubkey().to_bytes(), 1, &[0u8; 32]);
    assert!(matches!(w, Err(DelegationError::NoDelegationSigner(_))));
}

#[test]
fn service_signs_withdrawal_for_added_signer() {
    let user = SdkKeypair::new();
    let other = SdkKeypair::new();
    let mut service = DelegationService::new(lib_keypair(&user));
    service.add_signer(lib_keypair(&other));
    assert_eq!(service.get_keypair(&other.pubkey().to_bytes()).unwrap().pubkey(), other.pubkey().to_bytes());
    let bytes = service.create_withdrawal_transaction(&[6u8; 32], &other.pubkey().to_bytes(), 9, &[2u8; 32]).ok().unwrap();
    let tx: solana_sdk::transaction::Transaction = bincode::deserialize(&bytes).unwrap();
    assert!(tx.verify().is_ok());
    assert_eq!(tx.message.account_keys[0], other.pubkey());
    assert_eq!(&tx.message.instructions[0].data[..8], &tag("withdraw")[..]);
}

#[test]
fn invalid_keypair_bytes_are_refused() {
    let mut bytes = [7u8; 64];
    bytes[63] = 1;
    assert!(Keypair::from_array(bytes).is_none());
    let good = SdkKeypair::new().to_bytes();
    let mut flipped = good;
    flipped[40] ^= 1;
    assert!(Keypair::from_array(flipped).is_none());
    assert_eq!(Keypair::from_array(good).unwrap().to_bytes(), good);
}

#[test]
fn missing_signer_error_text() {
    let user = SdkKeypair::new();
    let e = DelegationError::NoDelegationSigner(user.pubkey().to_bytes());
    assert_eq!(e.to_string(), format!("No delegation signer found for {}", user.pubkey()));
    assert_eq!(DelegationError::NoProgramAddress.to_string(), "No delegation address found");
}

#[test]
fn program_id_bytes() {
    let expected: [u8; 32] = [
        0x40, 0xaa, 0xe7, 0xd3, 0x59, 0x01, 0xc5, 0x67, 0xd9, 0x23, 0xa7, 0x1d, 0x74, 0xd1, 0xf3, 0x7e,
        0xc8, 0x0c, 0x52, 0xfb, 0x3d, 0x6a, 0x42, 0x3a, 0x28, 0x40, 0xa1, 0xbf, 0x8d, 0x43, 0x48, 0x7a,
    ];
    assert_eq!(get_delegation_program_id(), expected);
    assert_eq!(program().to_bytes(), expected);
    assert_eq!(get_delegation_program_id(), get_delegation_program_id());
}

#[test]
fn try_builders_match_builders() {
    let owner = solana_sdk::pubkey::Pubkey::new_unique().to_bytes();
    let open = try_create_delegation_instruction(&owner, 258).unwrap();
    let direct = create_delegation_instruction(&owner, 258);
    assert_eq!(open.data, direct.data);
    assert_eq!(open.program_id, direct.program_id);
    assert_eq!(open.accounts.len(), 3);
    assert_eq!(&open.data[8..16], &[2, 1, 0, 0, 0, 0, 0, 0]);
    let top = try_create_topup_instruction(&owner, 258).unwrap();
    assert_eq!(&top.data[..8], &tag("top_up")[..]);
    assert_eq!(&top.data[8..], &open.data[8..]);
    assert_ne!(&top.data[..8], &open.data[..8]);
    assert_eq!(top.accounts[1].pubkey, open.accounts[1].pubkey);
    let w = try_create_withdrawal_instruction(&[9u8; 32], &owner, 5).unwrap();
    assert_eq!(&w.data[..8], &tag("withdraw")[..]);
    assert_eq!(w.accounts[1].pubkey, [9u8; 32]);
    assert_eq!(w.program_id, program().to_bytes());
}

#[test]
fn keypair_pubkey_is_public_half() {
    let k = SdkKeypair::new();
    assert_eq!(lib_keypair(&k).pubkey(), k.pubkey().to_bytes());
    assert_eq!(lib_keypair(&k).to_bytes(), k.to_bytes());
    assert!(service_has_no_keypair_for(&k));
}

fn service_has_no_keypair_for(k: &SdkKeypair) -> bool {
    let other = SdkKeypair::new();
    let service = DelegationService::new(lib_keypair(&other));
    service.get_keypair(&k.pubkey().to_bytes()).is_none()
}
