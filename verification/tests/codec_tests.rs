use rustcoin_consensus::records::{encode_record, OutputCandidate};
use rustcoin_consensus::tx::encode_tx;

#[test]
fn record_layout_is_exact() {
    let owner = vec![7u8; 33];
    let rec = encode_record(0xff00, &owner);
    assert_eq!(rec.len(), 39);
    assert_eq!(&rec[0..2], &[0u8, 1u8]);
    assert_eq!(&rec[2..6], &[0u8, 0u8, 0xffu8, 0u8]);
    assert_eq!(&rec[6..39], &owner[..]);
}

#[test]
fn record_value_is_big_endian() {
    let rec = encode_record(0x01020304, &vec![0u8; 33]);
    assert_eq!(&rec[2..6], &[1u8, 2u8, 3u8, 4u8]);
}

#[test]
fn tx_layout_is_exact() {
    let id = (0u8..32).collect::<Vec<u8>>();
    let sig = vec![0xaau8; 3];
    let owner = vec![0xbbu8; 33];
    let inputs = vec![(id.clone(), sig.clone())];
    let outputs = vec![OutputCandidate { value: 0x0102030405, owner: owner.clone() }];
    let tx = encode_tx(&inputs, &outputs);
    let mut expected = vec![0u8, 1u8, 1u8];
    expected.extend_from_slice(&id);
    expected.push(3);
    expected.extend_from_slice(&sig);
    expected.push(1);
    expected.extend_from_slice(&[0u8, 1u8, 2u8, 3u8, 4u8, 5u8]);
    expected.extend_from_slice(&owner);
    assert_eq!(tx, expected);
}

#[test]
fn empty_tx_is_four_bytes() {
    let inputs: Vec<(Vec<u8>, Vec<u8>)> = Vec::new();
    let outputs: Vec<OutputCandidate> = Vec::new();
    assert_eq!(encode_tx(&inputs, &outputs), vec![0u8, 1u8, 0u8, 0u8]);
}
