use rustcoin_consensus::block::{
    add_coinbase_to_utxo_set, add_to_utxo_set, construct_genesis, current_tip_id, get_block,
    get_utxo_record, init_chain, insert_block, verify_new_block,
};
use rustcoin_consensus::crypto::DigestSignatures;
use rustcoin_consensus::errors::ConsensusError;
use rustcoin_consensus::records::OutputCandidate;
use rustcoin_consensus::store::KvStore;
use rustcoin_consensus::tx::encode_tx;
use sha2::{Digest, Sha256};

fn sha(b: &[u8]) -> Vec<u8> {
    Sha256::digest(b).to_vec()
}

fn open_store() -> (tempfile::TempDir, KvStore) {
    let dir = tempfile::tempdir().unwrap();
    let store = KvStore::open(dir.path().to_str().unwrap()).unwrap();
    (dir, store)
}

/// Builds a block from a previous id, a nonce, a coinbase destination and
/// raw transaction bytes, with a correct transaction root.
fn build_block(prev: &[u8], nonce: [u8; 4], dest: &[u8], txs: &[u8]) -> Vec<u8> {
    let mut payload = dest.to_vec();
    payload.extend_from_slice(txs);
    let root = sha(&payload);
    let mut block = vec![0u8, 1u8];
    block.extend_from_slice(prev);
    block.extend_from_slice(&root);
    block.extend_from_slice(&nonce);
    block.extend_from_slice(&payload);
    block
}

/// Finds a nonce whose header digest starts with a zero byte.
fn mine_block(prev: &[u8], dest: &[u8], txs: &[u8]) -> Vec<u8> {
    for n in 0u32..200_000 {
        let block = build_block(prev, n.to_be_bytes(), dest, txs);
        if sha(&block[0..70])[0] == 0 {
            return block;
        }
    }
    panic!("no nonce found");
}

fn record_bytes(value: u32, owner: &[u8]) -> Vec<u8> {
    let mut r = vec![0u8, 1u8];
    r.extend_from_slice(&value.to_be_bytes());
    r.extend_from_slice(owner);
    r
}

#[test]
fn oversized_block_rejected() {
    let (_d, mut store) = open_store();
    let block = vec![0u8; 1_000_001];
    let r = verify_new_block(&mut store, &DigestSignatures {}, 0, block);
    assert_eq!(r, Err(ConsensusError::OversizedBlock));
    assert_eq!(current_tip_id(&store).unwrap(), vec![0u8; 32]);
}

#[test]
fn short_block_rejected() {
    let (_d, mut store) = open_store();
    let r = verify_new_block(&mut store, &DigestSignatures {}, 0, vec![0u8, 1u8, 7u8]);
    assert_eq!(r, Err(ConsensusError::UnsupportedVersion));
}

#[test]
fn wrong_version_rejected() {
    let (_d, mut store) = open_store();
    let mut block = build_block(&[0u8; 32], [0; 4], &[9u8; 33], &[]);
    block[1] = 9;
    let r = verify_new_block(&mut store, &DigestSignatures {}, 0, block);
    assert_eq!(r, Err(ConsensusError::UnsupportedVersion));
}

#[test]
fn invalid_nonce_rejected() {
    let (_d, mut store) = open_store();
    for n in 0u32..200_000 {
        let block = build_block(&[0u8; 32], n.to_be_bytes(), &[9u8; 33], &[]);
        if sha(&block[0..70])[0] != 0 {
            let r = verify_new_block(&mut store, &DigestSignatures {}, 1, block);
            assert_eq!(r, Err(ConsensusError::InvalidNonce));
            return;
        }
    }
    panic!("no failing nonce found");
}

#[test]
fn prev_mismatch_rejected_without_mutation() {
    let (_d, mut store) = open_store();
    let block = build_block(&[7u8; 32], [0; 4], &[9u8; 33], &[]);
    let r = verify_new_block(&mut store, &DigestSignatures {}, 0, block);
    assert_eq!(r, Err(ConsensusError::PrevHashMismatch));
    assert_eq!(current_tip_id(&store).unwrap(), vec![0u8; 32]);
}

#[test]
fn txroot_mismatch_idempotent() {
    let (_d, mut store) = open_store();
    let mut block = build_block(&[0u8; 32], [0; 4], &[9u8; 33], &[]);
    block[34] ^= 0xff;
    let r1 = verify_new_block(&mut store, &DigestSignatures {}, 0, block.clone());
    assert_eq!(r1, Err(ConsensusError::TxRootMismatch));
    let tip1 = current_tip_id(&store).unwrap();
    let r2 = verify_new_block(&mut store, &DigestSignatures {}, 0, block);
    assert_eq!(r2, Err(ConsensusError::TxRootMismatch));
    assert_eq!(current_tip_id(&store).unwrap(), tip1);
}

#[test]
fn first_block_accepted_end_to_end() {
    let (_d, mut store) = open_store();
    let dest = [9u8; 33];
    let block = mine_block(&[0u8; 32], &dest, &[]);
    let block_id = sha(&block);
    let r = verify_new_block(&mut store, &DigestSignatures {}, 1, block);
    assert_eq!(r, Ok(true));
    assert_eq!(current_tip_id(&store).unwrap(), block_id);
    let coinbase = record_bytes(0xff00, &dest);
    let coinbase_id = sha(&coinbase);
    let stored = get_utxo_record(&store, &coinbase_id).unwrap();
    assert_eq!(stored, Some(coinbase));
}

#[test]
fn tip_follows_each_accepted_block() {
    let (_d, mut store) = open_store();
    let b1 = build_block(&[0u8; 32], [0; 4], &[1u8; 33], &[]);
    let b1_id = sha(&b1);
    assert_eq!(
        verify_new_block(&mut store, &DigestSignatures {}, 0, b1.clone()),
        Ok(true)
    );
    assert_eq!(current_tip_id(&store).unwrap(), b1_id);
    let b2 = build_block(&b1_id, [0; 4], &[2u8; 33], &[]);
    let b2_id = sha(&b2);
    assert_eq!(verify_new_block(&mut store, &DigestSignatures {}, 0, b2), Ok(true));
    assert_eq!(current_tip_id(&store).unwrap(), b2_id);
    // a block built on the stale tip is now rejected
    let b3 = build_block(&b1_id, [0; 4], &[3u8; 33], &[]);
    assert_eq!(
        verify_new_block(&mut store, &DigestSignatures {}, 0, b3),
        Err(ConsensusError::PrevHashMismatch)
    );
}

#[test]
fn block_spends_referenced_record_and_stores_new_outputs() {
    let (_d, mut store) = open_store();
    let owner = [5u8; 33];
    let b1 = build_block(&[0u8; 32], [0; 4], &owner, &[]);
    let b1_id = sha(&b1);
    assert_eq!(verify_new_block(&mut store, &DigestSignatures {}, 0, b1), Ok(true));
    let funded = record_bytes(0xff00, &owner);
    let funded_id = sha(&funded);
    assert!(get_utxo_record(&store, &funded_id).unwrap().is_some());

    // spend the coinbase record inside the next block
    let mut sig_msg = owner.to_vec();
    sig_msg.extend_from_slice(&funded_id);
    let sig = sha(&sig_msg);
    let new_owner = [6u8; 33];
    let inputs = vec![(funded_id.clone(), sig)];
    let outputs = vec![OutputCandidate { value: 1000, owner: new_owner.to_vec() }];
    let tx = encode_tx(&inputs, &outputs);
    let b2 = build_block(&b1_id, [0; 4], &[7u8; 33], &tx);
    assert_eq!(verify_new_block(&mut store, &DigestSignatures {}, 0, b2.clone()), Ok(true));

    // the spent record left the unspent set in the same commit
    assert_eq!(get_utxo_record(&store, &funded_id).unwrap(), None);

    // the new output record is stored under its derived id
    let new_record = record_bytes(1000, &new_owner);
    let mut digest_input = new_record.clone();
    digest_input.extend_from_slice(&b2[0..70]);
    digest_input.extend_from_slice(&[0u8, 0u8]);
    let new_id = sha(&digest_input);
    assert_eq!(get_utxo_record(&store, &new_id).unwrap(), Some(new_record));
}

#[test]
fn insert_block_stores_block_and_tip() {
    let (_d, mut store) = open_store();
    let block = vec![1u8, 2, 3, 4];
    let id = sha(&block);
    insert_block(&mut store, block.clone()).unwrap();
    assert_eq!(get_block(&store, &id).unwrap(), Some(block));
    assert_eq!(current_tip_id(&store).unwrap(), id);
}

#[test]
fn init_chain_installs_genesis() {
    let (_d, mut store) = open_store();
    init_chain(&mut store).unwrap();
    let mut genesis = vec![0u8, 1u8];
    genesis.extend_from_slice(&[0u8; 101]);
    let id = sha(&genesis);
    assert_eq!(current_tip_id(&store).unwrap(), id);
    assert_eq!(get_block(&store, &id).unwrap(), Some(genesis));
}

#[test]
fn construct_genesis_returns_block_bytes() {
    let (_d, mut store) = open_store();
    let g = construct_genesis(&mut store).unwrap();
    assert_eq!(g.len(), 103);
    assert_eq!(&g[0..2], &[0u8, 1u8]);
    assert!(g[2..].iter().all(|b| *b == 0));
}

#[test]
fn add_coinbase_writes_reward_record() {
    let (_d, mut store) = open_store();
    let dest = [3u8; 33];
    add_coinbase_to_utxo_set(&mut store, dest.to_vec()).unwrap();
    let rec = record_bytes(0xff00, &dest);
    assert_eq!(get_utxo_record(&store, &sha(&rec)).unwrap(), Some(rec));
}

#[test]
fn add_to_utxo_set_keys_records_by_derived_id() {
    let (_d, mut store) = open_store();
    let header = vec![8u8; 70];
    let utxos = vec![
        OutputCandidate { value: 17, owner: vec![1u8; 33] },
        OutputCandidate { value: 18, owner: vec![2u8; 33] },
    ];
    add_to_utxo_set(&mut store, &utxos, &header).unwrap();
    for (i, c) in [(0u8, 17u32), (1u8, 18u32)].iter().enumerate() {
        let rec = record_bytes(c.1, &vec![(i + 1) as u8; 33]);
        let mut digest_input = rec.clone();
        digest_input.extend_from_slice(&header);
        digest_input.extend_from_slice(&[0u8, c.0]);
        let id = sha(&digest_input);
        assert_eq!(get_utxo_record(&store, &id).unwrap(), Some(rec));
    }
}
