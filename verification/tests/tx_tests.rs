use rustcoin_consensus::block::{add_coinbase_to_utxo_set, get_utxo_record};
use rustcoin_consensus::crypto::DigestSignatures;
use rustcoin_consensus::errors::ConsensusError;
use rustcoin_consensus::mempool::{admit_tx, select_for_block};
use rustcoin_consensus::records::OutputCandidate;
use rustcoin_consensus::store::KvStore;
use rustcoin_consensus::tx::encode_tx;
use sha2::{Digest, Sha256};

fn sha(b: &[u8]) -> Vec<u8> {
    Sha256::digest(b).to_vec()
}

fn open_store() -> (tempfile::TempDir, KvStore) {
    let dir = tempfile::tempdir().unwrap();
    let store = KvStore::open(dir.path().to_str().unwrap()).unwrap();
    (dir, store)
}

fn record_bytes(value: u32, owner: &[u8]) -> Vec<u8> {
    let mut r = vec![0u8, 1u8];
    r.extend_from_slice(&value.to_be_bytes());
    r.extend_from_slice(owner);
    r
}

/// Stores a coinbase record for `owner` and returns its id and a valid
/// signature over it.
fn fund(store: &mut KvStore, owner: &[u8; 33]) -> (Vec<u8>, Vec<u8>) {
    add_coinbase_to_utxo_set(store, owner.to_vec()).unwrap();
    let id = sha(&record_bytes(0xff00, owner));
    let mut msg = owner.to_vec();
    msg.extend_from_slice(&id);
    (id.clone(), sha(&msg))
}

#[test]
fn unknown_reference_rejected_without_mempool_write() {
    let (_d, mut store) = open_store();
    let inputs = vec![(vec![4u8; 32], vec![1u8; 8])];
    let outputs: Vec<OutputCandidate> = Vec::new();
    let tx = encode_tx(&inputs, &outputs);
    let r = admit_tx(&mut store, &DigestSignatures {}, &tx);
    assert!(matches!(r, Err(ConsensusError::InvalidUtxoReference)));
    assert_eq!(select_for_block(&store, 10).unwrap().len(), 0);
}

#[test]
fn wrong_tx_version_rejected() {
    let (_d, mut store) = open_store();
    let tx = vec![0u8, 9u8, 0u8, 0u8];
    let r = admit_tx(&mut store, &DigestSignatures {}, &tx);
    assert!(matches!(r, Err(ConsensusError::UnsupportedTxVersion)));
}

#[test]
fn truncated_tx_rejected() {
    let (_d, mut store) = open_store();
    // declares one input but ends before its 32-byte reference
    let tx = vec![0u8, 1u8, 1u8, 5u8, 5u8];
    let r = admit_tx(&mut store, &DigestSignatures {}, &tx);
    assert!(matches!(r, Err(ConsensusError::UnsupportedTxVersion)));
}

#[test]
fn bad_signature_rejected() {
    let (_d, mut store) = open_store();
    let owner = [5u8; 33];
    let (id, _sig) = fund(&mut store, &owner);
    let inputs = vec![(id, vec![0u8; 32])];
    let outputs: Vec<OutputCandidate> = Vec::new();
    let tx = encode_tx(&inputs, &outputs);
    let r = admit_tx(&mut store, &DigestSignatures {}, &tx);
    assert!(matches!(r, Err(ConsensusError::InvalidSignature)));
}

#[test]
fn double_spend_within_one_tx_rejected() {
    let (_d, mut store) = open_store();
    let owner = [5u8; 33];
    let (id, sig) = fund(&mut store, &owner);
    let inputs = vec![(id.clone(), sig.clone()), (id, sig)];
    let outputs: Vec<OutputCandidate> = Vec::new();
    let tx = encode_tx(&inputs, &outputs);
    let r = admit_tx(&mut store, &DigestSignatures {}, &tx);
    assert!(matches!(r, Err(ConsensusError::InvalidUtxoReference)));
}

#[test]
fn overspend_rejected_at_failing_output() {
    let (_d, mut store) = open_store();
    let owner = [5u8; 33];
    let (id, sig) = fund(&mut store, &owner);
    // funded with 0xff00 = 65280; the second output pushes the total over
    let inputs = vec![(id, sig)];
    let outputs = vec![
        OutputCandidate { value: 60000, owner: vec![1u8; 33] },
        OutputCandidate { value: 10000, owner: vec![2u8; 33] },
    ];
    let tx = encode_tx(&inputs, &outputs);
    let r = admit_tx(&mut store, &DigestSignatures {}, &tx);
    assert!(matches!(r, Err(ConsensusError::OutputsExceedInputs)));
    assert_eq!(select_for_block(&store, 10).unwrap().len(), 0);
}

#[test]
fn overspend_detected_before_later_outputs_are_decoded() {
    let (_d, mut store) = open_store();
    let owner = [5u8; 33];
    let (id, sig) = fund(&mut store, &owner);
    // built by hand: output count says 2, the first output already over-
    // spends, and the second output is absent entirely
    let mut tx = vec![0u8, 1u8, 1u8];
    tx.extend_from_slice(&id);
    tx.push(sig.len() as u8);
    tx.extend_from_slice(&sig);
    tx.push(2); // output count
    tx.extend_from_slice(&[0, 0, 0, 1, 0x11, 0x70]); // 70000 > 65280
    tx.extend_from_slice(&[9u8; 33]);
    let r = admit_tx(&mut store, &DigestSignatures {}, &tx);
    assert!(matches!(r, Err(ConsensusError::OutputsExceedInputs)));
}

#[test]
fn exact_balance_accepted() {
    let (_d, mut store) = open_store();
    let owner = [5u8; 33];
    let (id, sig) = fund(&mut store, &owner);
    let inputs = vec![(id, sig)];
    let outputs = vec![OutputCandidate { value: 0xff00, owner: vec![1u8; 33] }];
    let tx = encode_tx(&inputs, &outputs);
    let r = admit_tx(&mut store, &DigestSignatures {}, &tx).unwrap();
    assert_eq!(r.consumed, tx.len());
}

#[test]
fn round_trip_recovers_fields() {
    let (_d, mut store) = open_store();
    let owner = [5u8; 33];
    let (id, sig) = fund(&mut store, &owner);
    let inputs = vec![(id, sig)];
    let outputs = vec![
        OutputCandidate { value: 1234, owner: vec![1u8; 33] },
        OutputCandidate { value: 40000, owner: vec![2u8; 33] },
    ];
    let tx = encode_tx(&inputs, &outputs);
    let out = admit_tx(&mut store, &DigestSignatures {}, &tx).unwrap();
    assert_eq!(out.consumed, tx.len());
    assert_eq!(out.candidates.len(), 2);
    assert_eq!(out.candidates[0].value, 1234);
    assert_eq!(out.candidates[0].owner, vec![1u8; 33]);
    assert_eq!(out.candidates[1].value, 40000);
    assert_eq!(out.candidates[1].owner, vec![2u8; 33]);
}

#[test]
fn digest_wrapper_is_real_sha256() {
    // the tip of an accepted store write equals the digest computed here
    let (_d, mut store) = open_store();
    let block = vec![1u8, 2, 3];
    rustcoin_consensus::block::insert_block(&mut store, block.clone()).unwrap();
    let expected = Sha256::digest(&block[..]).to_vec();
    assert_eq!(
        rustcoin_consensus::block::current_tip_id(&store).unwrap(),
        expected
    );
    assert_ne!(expected, block);
    let _ = get_utxo_record(&store, &expected).unwrap();
}
