use rustcoin_consensus::block::add_coinbase_to_utxo_set;
use rustcoin_consensus::crypto::DigestSignatures;
use rustcoin_consensus::mempool::{admit_tx, evict, select_for_block};
use rustcoin_consensus::records::OutputCandidate;
use rustcoin_consensus::store::KvStore;
use rustcoin_consensus::tx::encode_tx;
use sha2::{Digest, Sha256};

fn sha(b: &[u8]) -> Vec<u8> {
    Sha256::digest(b).to_vec()
}

fn open_store() -> (tempfile::TempDir, KvStore) {
    let dir = tempfile::tempdir().unwrap();
    let store = KvStore::open(dir.path().to_str().unwrap()).unwrap();
    (dir, store)
}

fn record_bytes(value: u32, owner: &[u8]) -> Vec<u8> {
    let mut r = vec![0u8, 1u8];
    r.extend_from_slice(&value.to_be_bytes());
    r.extend_from_slice(owner);
    r
}

fn fund(store: &mut KvStore, owner: &[u8; 33]) -> (Vec<u8>, Vec<u8>) {
    add_coinbase_to_utxo_set(store, owner.to_vec()).unwrap();
    let id = sha(&record_bytes(0xff00, owner));
    let mut msg = owner.to_vec();
    msg.extend_from_slice(&id);
    (id.clone(), sha(&msg))
}

fn admit_two_outputs(store: &mut KvStore) -> (Vec<u8>, Vec<u8>) {
    let owner = [5u8; 33];
    let (id, sig) = fund(store, &owner);
    let inputs = vec![(id, sig)];
    let outputs = vec![
        OutputCandidate { value: 100, owner: vec![1u8; 33] },
        OutputCandidate { value: 200, owner: vec![2u8; 33] },
    ];
    let tx = encode_tx(&inputs, &outputs);
    admit_tx(store, &DigestSignatures {}, &tx).unwrap();
    (record_bytes(100, &[1u8; 33]), record_bytes(200, &[2u8; 33]))
}

#[test]
fn admitted_candidates_are_selectable() {
    let (_d, mut store) = open_store();
    let (r1, r2) = admit_two_outputs(&mut store);
    let all = select_for_block(&store, 10).unwrap();
    assert_eq!(all, vec![r1.clone(), r2]);
    let one = select_for_block(&store, 1).unwrap();
    assert_eq!(one, vec![r1]);
    assert_eq!(select_for_block(&store, 0).unwrap().len(), 0);
}

#[test]
fn evict_removes_named_records_only() {
    let (_d, mut store) = open_store();
    let (r1, r2) = admit_two_outputs(&mut store);
    evict(&mut store, &vec![sha(&r1)]).unwrap();
    let left = select_for_block(&store, 10).unwrap();
    assert_eq!(left, vec![r2]);
}

#[test]
fn evict_of_unknown_id_keeps_pool() {
    let (_d, mut store) = open_store();
    let (r1, r2) = admit_two_outputs(&mut store);
    evict(&mut store, &vec![vec![0xabu8; 32]]).unwrap();
    assert_eq!(select_for_block(&store, 10).unwrap(), vec![r1, r2]);
}

#[test]
fn empty_pool_selects_nothing() {
    let (_d, store) = open_store();
    assert_eq!(select_for_block(&store, 5).unwrap().len(), 0);
}

#[test]
fn repeated_admission_appends() {
    let (_d, mut store) = open_store();
    let owner_a = [5u8; 33];
    let (id_a, sig_a) = fund(&mut store, &owner_a);
    let tx_a = encode_tx(
        &vec![(id_a, sig_a)],
        &vec![OutputCandidate { value: 7, owner: vec![1u8; 33] }],
    );
    admit_tx(&mut store, &DigestSignatures {}, &tx_a).unwrap();
    let owner_b = [6u8; 33];
    let (id_b, sig_b) = fund(&mut store, &owner_b);
    let tx_b = encode_tx(
        &vec![(id_b, sig_b)],
        &vec![OutputCandidate { value: 8, owner: vec![2u8; 33] }],
    );
    admit_tx(&mut store, &DigestSignatures {}, &tx_b).unwrap();
    let all = select_for_block(&store, 10).unwrap();
    assert_eq!(
        all,
        vec![record_bytes(7, &[1u8; 33]), record_bytes(8, &[2u8; 33])]
    );
}
