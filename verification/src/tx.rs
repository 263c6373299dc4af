//! The transaction validator.
//!
//! A transaction is a 2-byte version, a 1-byte input count, the inputs (a
//! 32-byte referenced output id, a 1-byte signature length, the signature),
//! a 1-byte output count, and the outputs (a 6-byte big-endian value whose
//! upper two bytes are reserved zero, and a 33-byte destination key).
//!
//! What the validator decides is written down as recursive specification
//! functions over the raw bytes, the store contents, and the signature
//! capability; the executable validator is proved to return exactly what
//! they say. The checks happen in wire order, and the first failing check
//! names the error: bytes that end before the declared structure is complete
//! are not a transaction of the supported layout (`UnsupportedTxVersion`),
//! a reference to an absent, spent or corrupt record fails at that input
//! (`InvalidUtxoReference`, `InvalidSignature`), and the running output
//! total is checked against the running input total after each decoded
//! output value (`OutputsExceedInputs`).

use vstd::prelude::*;
use crate::bytes::{be_decode, bytes_eq, concat_bytes, lemma_be_val_bound, be_val, pow256, subrange_vec};
use crate::crypto::SignatureVerifier;
use crate::errors::ConsensusError;
use crate::records::{cand_seq, version_bytes, OutputCandidate, CLASS_UTXO, class_key, utxo_store_key};
use crate::store::{kv_contents, KvStore};

verus! {

/// The set of ids a vector of ids holds.
pub open spec fn id_set(v: Seq<Vec<u8>>) -> Set<Seq<u8>> {
    Set::new(|s: Seq<u8>| exists|i: int| 0 <= i < v.len() && v[i]@ == s)
}

pub proof fn lemma_id_set_push(v: Seq<Vec<u8>>, x: Vec<u8>)
    ensures
        id_set(v.push(x)) == id_set(v).insert(x@),
{
    let a = id_set(v.push(x));
    let b = id_set(v).insert(x@);
    assert forall|k: Seq<u8>| a.contains(k) implies b.contains(k) by {
        let i = choose|i: int| 0 <= i < v.push(x).len() && v.push(x)[i]@ == k;
        if i < v.len() {
            assert(v[i]@ == k);
        }
    }
    assert forall|k: Seq<u8>| b.contains(k) implies a.contains(k) by {
        if k == x@ {
            assert(v.push(x)[v.len() as int]@ == k);
        } else {
            let i = choose|i: int| 0 <= i < v.len() && v[i]@ == k;
            assert(v.push(x)[i]@ == k);
        }
    }
    assert(a =~= b);
}

/// Scans `remaining` inputs of `bytes` starting at `pos`, against store
/// contents `store`, the ids `spent` already consumed, and the running input
/// total `sum`. Yields the position after the inputs, the spent ids, and the
/// input total.
pub open spec fn scan_inputs<S: SignatureVerifier>(
    v: S,
    store: Map<Seq<u8>, Seq<u8>>,
    bytes: Seq<u8>,
    pos: int,
    remaining: nat,
    spent: Set<Seq<u8>>,
    sum: nat,
) -> Result<(int, Set<Seq<u8>>, nat), ConsensusError>
    decreases remaining,
{
    if remaining == 0 {
        Ok((pos, spent, sum))
    } else if pos + 32 > bytes.len() {
        Err(ConsensusError::UnsupportedTxVersion)
    } else {
        let id = bytes.subrange(pos, pos + 32);
        let key = utxo_store_key(id);
        if spent.contains(id) || !store.dom().contains(key) || store[key].len() != 39 {
            Err(ConsensusError::InvalidUtxoReference)
        } else if pos + 33 > bytes.len() {
            Err(ConsensusError::UnsupportedTxVersion)
        } else {
            let sig_len = bytes[pos + 32] as int;
            if pos + 33 + sig_len > bytes.len() {
                Err(ConsensusError::UnsupportedTxVersion)
            } else if !v.sig_ok(
                store[key].subrange(6, 39),
                bytes.subrange(pos + 33, pos + 33 + sig_len),
                id,
            ) {
                Err(ConsensusError::InvalidSignature)
            } else {
                scan_inputs(
                    v,
                    store,
                    bytes,
                    pos + 33 + sig_len,
                    (remaining - 1) as nat,
                    spent.insert(id),
                    sum + be_val(store[key].subrange(2, 6)),
                )
            }
        }
    }
}

/// Scans `remaining` outputs of `bytes` starting at `pos`, with the input
/// total `sum_inputs` and the running output total `sum_outputs`, appending
/// each decoded output to `cands`. Yields the position after the outputs and
/// the candidate outputs.
pub open spec fn scan_outputs(
    bytes: Seq<u8>,
    pos: int,
    remaining: nat,
    sum_inputs: nat,
    sum_outputs: nat,
    cands: Seq<(u64, Seq<u8>)>,
) -> Result<(int, Seq<(u64, Seq<u8>)>), ConsensusError>
    decreases remaining,
{
    if remaining == 0 {
        Ok((pos, cands))
    } else if pos + 6 > bytes.len() {
        Err(ConsensusError::UnsupportedTxVersion)
    } else {
        let value = be_val(bytes.subrange(pos, pos + 6));
        if sum_outputs + value > sum_inputs {
            Err(ConsensusError::OutputsExceedInputs)
        } else if value >= 0x1_0000_0000 {
            Err(ConsensusError::UnsupportedTxVersion)
        } else if pos + 39 > bytes.len() {
            Err(ConsensusError::UnsupportedTxVersion)
        } else {
            scan_outputs(
                bytes,
                pos + 39,
                (remaining - 1) as nat,
                sum_inputs,
                sum_outputs + value,
                cands.push((value as u64, bytes.subrange(pos + 6, pos + 39))),
            )
        }
    }
}

/// What validating one transaction yields: the number of bytes consumed, the
/// set of ids spent so far (the caller's set grown by this transaction's
/// inputs), and the candidate outputs in order.
pub open spec fn spec_verify_tx<S: SignatureVerifier>(
    v: S,
    store: Map<Seq<u8>, Seq<u8>>,
    bytes: Seq<u8>,
    spent0: Set<Seq<u8>>,
) -> Result<(int, Set<Seq<u8>>, Seq<(u64, Seq<u8>)>), ConsensusError> {
    if bytes.len() < 3 {
        Err(ConsensusError::UnsupportedTxVersion)
    } else if bytes.subrange(0, 2) != version_bytes() {
        Err(ConsensusError::UnsupportedTxVersion)
    } else {
        match scan_inputs(v, store, bytes, 3, bytes[2] as nat, spent0, 0) {
            Err(e) => Err(e),
            Ok((pos, spent, sum_in)) => {
                if pos + 1 > bytes.len() {
                    Err(ConsensusError::UnsupportedTxVersion)
                } else {
                    match scan_outputs(bytes, pos + 1, bytes[pos] as nat, sum_in, 0, Seq::empty()) {
                        Err(e) => Err(e),
                        Ok((end, cands)) => Ok((end, spent, cands)),
                    }
                }
            },
        }
    }
}

/// Whether `id` is among the ids already spent.
fn spent_contains(spent: &Vec<Vec<u8>>, id: &Vec<u8>) -> (r: bool)
    ensures
        r == id_set(spent@).contains(id@),
{
    let mut i: usize = 0;
    while i < spent.len()
        invariant
            i <= spent@.len(),
            forall|j: int| 0 <= j < i ==> spent@[j]@ != id@,
        decreases spent.len() - i,
    {
        if bytes_eq(&spent[i], id) {
            return true;
        }
        i += 1;
    }
    false
}

/// Runs the input section: positions `3..` of `tx`, `count` inputs.
fn run_input_scan<S: SignatureVerifier>(
    store: &KvStore,
    verifier: &S,
    tx: &Vec<u8>,
    count: u8,
    spent: &mut Vec<Vec<u8>>,
) -> (r: Result<(usize, u64), ConsensusError>)
    requires
        3 <= tx@.len(),
    ensures
        match r {
            Ok(p) => {
                &&& scan_inputs(
                    *verifier,
                    kv_contents(*store),
                    tx@,
                    3,
                    count as nat,
                    id_set(old(spent)@),
                    0,
                ) == Ok::<(int, Set<Seq<u8>>, nat), ConsensusError>(
                    (p.0 as int, id_set(final(spent)@), p.1 as nat),
                )
                &&& 3 <= p.0 <= tx@.len()
                &&& p.1 < 0x100_0000_0000
            },
            Err(e) => e == ConsensusError::StorageFailure || scan_inputs(
                *verifier,
                kv_contents(*store),
                tx@,
                3,
                count as nat,
                id_set(old(spent)@),
                0,
            ) == Err::<(int, Set<Seq<u8>>, nat), ConsensusError>(e),
        },
{
    let ghost m = kv_contents(*store);
    let ghost spent0 = id_set(old(spent)@);
    let mut pos: usize = 3;
    let mut sum: u64 = 0;
    let mut i: usize = 0;
    let count_us = count as usize;
    while i < count_us
        invariant
            count_us == count as nat,
            i <= count_us,
            3 <= pos <= tx@.len(),
            sum <= i * 0xffff_ffff,
            m == kv_contents(*store),
            spent0 == id_set(old(spent)@),
            scan_inputs(*verifier, m, tx@, 3, count as nat, spent0, 0) == scan_inputs(
                *verifier,
                m,
                tx@,
                pos as int,
                (count_us - i) as nat,
                id_set(spent@),
                sum as nat,
            ),
        decreases count_us - i,
    {
        let remaining = tx.len() - pos;
        if remaining < 32 {
            return Err(ConsensusError::UnsupportedTxVersion);
        }
        let id = subrange_vec(tx, pos, pos + 32);
        if spent_contains(spent, &id) {
            return Err(ConsensusError::InvalidUtxoReference);
        }
        let key = class_key(CLASS_UTXO, &id);
        proof {
            assert(key@ == utxo_store_key(id@));
        }
        let rec = match store.get(&key) {
            Err(e) => {
                return Err(e);
            },
            Ok(None) => {
                return Err(ConsensusError::InvalidUtxoReference);
            },
            Ok(Some(rec)) => rec,
        };
        if rec.len() != 39 {
            return Err(ConsensusError::InvalidUtxoReference);
        }
        let value = be_decode(&rec, 2, 4);
        proof {
            lemma_be_val_bound(rec@.subrange(2, 6));
            reveal_with_fuel(pow256, 5);
        }
        let owner = subrange_vec(&rec, 6, 39);
        if remaining < 33 {
            return Err(ConsensusError::UnsupportedTxVersion);
        }
        let sig_len = tx[pos + 32] as usize;
        if sig_len > remaining - 33 {
            return Err(ConsensusError::UnsupportedTxVersion);
        }
        let sig = subrange_vec(tx, pos + 33, pos + 33 + sig_len);
        if !verifier.verify_signature(&owner, &sig, &id) {
            return Err(ConsensusError::InvalidSignature);
        }
        proof {
            lemma_id_set_push(spent@, id);
        }
        spent.push(id);
        sum = sum + value;
        pos = pos + 33 + sig_len;
        i = i + 1;
    }
    proof {
        assert(0xff * 0xffff_ffffu64 < 0x100_0000_0000) by (nonlinear_arith);
        assert(sum <= count_us * 0xffff_ffff);
        assert(count_us * 0xffff_ffffu64 <= 0xff * 0xffff_ffffu64) by (nonlinear_arith)
            requires
                count_us <= 0xff,
        ;
    }
    Ok((pos, sum))
}

/// Runs the output section: `count` outputs starting at `start`.
fn run_output_scan(tx: &Vec<u8>, start: usize, count: u8, sum_inputs: u64) -> (r: Result<
    (usize, Vec<OutputCandidate>),
    ConsensusError,
>)
    requires
        start <= tx@.len(),
        sum_inputs < 0x100_0000_0000,
    ensures
        match r {
            Ok(p) => {
                &&& scan_outputs(
                    tx@,
                    start as int,
                    count as nat,
                    sum_inputs as nat,
                    0,
                    Seq::empty(),
                ) == Ok::<(int, Seq<(u64, Seq<u8>)>), ConsensusError>(
                    (p.0 as int, cand_seq(p.1@)),
                )
                &&& start <= p.0 <= tx@.len()
                &&& forall|j: int| 0 <= j < p.1@.len() ==> p.1@[j].wf()
            },
            Err(e) => scan_outputs(
                tx@,
                start as int,
                count as nat,
                sum_inputs as nat,
                0,
                Seq::empty(),
            ) == Err::<(int, Seq<(u64, Seq<u8>)>), ConsensusError>(e),
        },
{
    let mut pos: usize = start;
    let mut sum: u64 = 0;
    let mut cands: Vec<OutputCandidate> = Vec::new();
    let mut i: usize = 0;
    let count_us = count as usize;
    proof {
        assert(cand_seq(cands@) =~= Seq::<(u64, Seq<u8>)>::empty());
    }
    while i < count_us
        invariant
            count_us == count as nat,
            i <= count_us,
            start <= pos <= tx@.len(),
            sum <= sum_inputs < 0x100_0000_0000,
            forall|j: int| 0 <= j < cands@.len() ==> cands@[j].wf(),
            scan_outputs(tx@, start as int, count as nat, sum_inputs as nat, 0, Seq::empty())
                == scan_outputs(
                tx@,
                pos as int,
                (count_us - i) as nat,
                sum_inputs as nat,
                sum as nat,
                cand_seq(cands@),
            ),
        decreases count_us - i,
    {
        let remaining = tx.len() - pos;
        if remaining < 6 {
            return Err(ConsensusError::UnsupportedTxVersion);
        }
        let value = be_decode(tx, pos, 6);
        proof {
            lemma_be_val_bound(tx@.subrange(pos as int, pos + 6));
            reveal_with_fuel(pow256, 7);
        }
        if sum + value > sum_inputs {
            return Err(ConsensusError::OutputsExceedInputs);
        }
        if value >= 0x1_0000_0000 {
            return Err(ConsensusError::UnsupportedTxVersion);
        }
        if remaining < 39 {
            return Err(ConsensusError::UnsupportedTxVersion);
        }
        let owner = subrange_vec(tx, pos + 6, pos + 39);
        let cand = OutputCandidate { value, owner };
        proof {
            assert(cand_seq(cands@.push(cand)) =~= cand_seq(cands@).push(cand.view_pair()));
        }
        cands.push(cand);
        sum = sum + value;
        pos = pos + 39;
        i = i + 1;
    }
    Ok((pos, cands))
}

/// What validating one transaction returned: how many bytes it occupied, and
/// the candidate output records it produced.
pub struct TxOutcome {
    pub consumed: usize,
    pub candidates: Vec<OutputCandidate>,
}

/// Validates one transaction at the start of `tx`.
///
/// In in-block mode the store is only read; the ids this transaction spends
/// are appended to `spent`, which also supplies the ids already spent by
/// earlier transactions of the same block. In standalone mode a success also
/// appends the candidate records to the mempool blob as one
/// read-modify-write.
pub fn verify_tx<S: SignatureVerifier>(
    store: &mut KvStore,
    verifier: &S,
    tx: &Vec<u8>,
    in_block: bool,
    spent: &mut Vec<Vec<u8>>,
) -> (r: Result<TxOutcome, ConsensusError>)
    ensures
        match r {
            Ok(out) => {
                &&& spec_verify_tx(
                    *verifier,
                    kv_contents(*old(store)),
                    tx@,
                    id_set(old(spent)@),
                ) == Ok::<(int, Set<Seq<u8>>, Seq<(u64, Seq<u8>)>), ConsensusError>(
                    (out.consumed as int, id_set(final(spent)@), cand_seq(out.candidates@)),
                )
                &&& 4 <= out.consumed <= tx@.len()
                &&& forall|j: int| 0 <= j < out.candidates@.len() ==> out.candidates@[j].wf()
                &&& in_block ==> kv_contents(*final(store)) == kv_contents(*old(store))
                &&& !in_block ==> crate::mempool::mempool_append(
                    kv_contents(*old(store)),
                    cand_seq(out.candidates@),
                ) == Ok::<Map<Seq<u8>, Seq<u8>>, ConsensusError>(kv_contents(*final(store)))
            },
            Err(e) => {
                &&& (e == ConsensusError::StorageFailure || kv_contents(*final(store))
                    == kv_contents(*old(store)))
                // the version check precedes every store access, so a storage
                // failure can only arise on a transaction that passed it
                &&& e == ConsensusError::StorageFailure ==> (tx@.len() >= 3 && tx@.subrange(0, 2)
                    == version_bytes())
                &&& (in_block && e != ConsensusError::StorageFailure) ==> spec_verify_tx(
                    *verifier,
                    kv_contents(*old(store)),
                    tx@,
                    id_set(old(spent)@),
                ) == Err::<(int, Set<Seq<u8>>, Seq<(u64, Seq<u8>)>), ConsensusError>(e)
                &&& in_block ==> kv_contents(*final(store)) == kv_contents(*old(store))
                &&& (!in_block && e != ConsensusError::StorageFailure)
                    ==> spec_standalone_effect(
                    *verifier,
                    kv_contents(*old(store)),
                    tx@,
                    id_set(old(spent)@),
                ) == Err::<Map<Seq<u8>, Seq<u8>>, ConsensusError>(e)
                &&& (!in_block && e == ConsensusError::StorageFailure) ==> (kv_contents(
                    *final(store),
                ) == kv_contents(*old(store)) || spec_standalone_effect(
                    *verifier,
                    kv_contents(*old(store)),
                    tx@,
                    id_set(old(spent)@),
                ) == Ok::<Map<Seq<u8>, Seq<u8>>, ConsensusError>(kv_contents(*final(store))))
            },
        },
{
    let ghost pre = kv_contents(*old(store));
    if tx.len() < 3 {
        return Err(ConsensusError::UnsupportedTxVersion);
    }
    if !(tx[0] == 0 && tx[1] == 1) {
        proof {
            assert(tx@.subrange(0, 2)[0] == tx@[0] && tx@.subrange(0, 2)[1] == tx@[1]);
            assert(tx@.subrange(0, 2) != version_bytes());
        }
        return Err(ConsensusError::UnsupportedTxVersion);
    }
    proof {
        assert(tx@.subrange(0, 2) =~= version_bytes());
    }
    let n_in = tx[2];
    let (pos_in, sum_in) = match run_input_scan(store, verifier, tx, n_in, spent) {
        Ok(p) => p,
        Err(e) => {
            return Err(e);
        },
    };
    if pos_in >= tx.len() {
        return Err(ConsensusError::UnsupportedTxVersion);
    }
    let n_out = tx[pos_in];
    let (end, candidates) = match run_output_scan(tx, pos_in + 1, n_out, sum_in) {
        Ok(p) => p,
        Err(e) => {
            return Err(e);
        },
    };
    let out = TxOutcome { consumed: end, candidates };
    if !in_block {
        match crate::mempool::append_candidates(store, &out.candidates) {
            Ok(_) => {},
            Err(e) => {
                return Err(e);
            },
        }
    }
    Ok(out)
}

/// The inputs of a vector, as pairs of plain byte strings (referenced
/// output id, signature).
pub open spec fn ins_view(ins: Seq<(Vec<u8>, Vec<u8>)>) -> Seq<(Seq<u8>, Seq<u8>)> {
    ins.map_values(|p: (Vec<u8>, Vec<u8>)| (p.0@, p.1@))
}

/// The wire encoding of a sequence of inputs.
pub open spec fn spec_encode_inputs(ins: Seq<(Seq<u8>, Seq<u8>)>) -> Seq<u8>
    decreases ins.len(),
{
    if ins.len() == 0 {
        Seq::empty()
    } else {
        ins[0].0 + seq![ins[0].1.len() as u8] + ins[0].1 + spec_encode_inputs(ins.drop_first())
    }
}

/// The wire encoding of a sequence of outputs.
pub open spec fn spec_encode_outputs(outs: Seq<(u64, Seq<u8>)>) -> Seq<u8>
    decreases outs.len(),
{
    if outs.len() == 0 {
        Seq::empty()
    } else {
        crate::bytes::be_bytes(outs[0].0 as nat, 6) + outs[0].1 + spec_encode_outputs(
            outs.drop_first(),
        )
    }
}

/// The wire encoding of a whole transaction.
pub open spec fn spec_encode_tx(ins: Seq<(Seq<u8>, Seq<u8>)>, outs: Seq<(u64, Seq<u8>)>) -> Seq<
    u8,
> {
    version_bytes() + seq![ins.len() as u8] + spec_encode_inputs(ins) + seq![outs.len() as u8]
        + spec_encode_outputs(outs)
}

/// Encodes the inputs from index `idx` on.
fn encode_inputs_from(inputs: &Vec<(Vec<u8>, Vec<u8>)>, idx: usize) -> (r: Vec<u8>)
    requires
        idx <= inputs@.len(),
        forall|i: int| 0 <= i < inputs@.len() ==> (#[trigger] inputs@[i].1)@.len() <= 255,
    ensures
        r@ == spec_encode_inputs(ins_view(inputs@).skip(idx as int)),
    decreases inputs@.len() - idx,
{
    if idx == inputs.len() {
        let r: Vec<u8> = Vec::new();
        proof {
            assert(ins_view(inputs@).skip(idx as int) =~= Seq::<(Seq<u8>, Seq<u8>)>::empty());
        }
        r
    } else {
        let rest = encode_inputs_from(inputs, idx + 1);
        let mut head = subrange_vec(&inputs[idx].0, 0, inputs[idx].0.len());
        head.push(inputs[idx].1.len() as u8);
        let head2 = concat_bytes(&head, &inputs[idx].1);
        let r = concat_bytes(&head2, &rest);
        proof {
            let iv = ins_view(inputs@);
            assert(iv.skip(idx as int).drop_first() =~= iv.skip(idx + 1));
            assert(iv.skip(idx as int)[0] == iv[idx as int]);
            assert(r@ =~= spec_encode_inputs(iv.skip(idx as int)));
        }
        r
    }
}

/// Encodes the outputs from index `idx` on.
fn encode_outputs_from(outputs: &Vec<OutputCandidate>, idx: usize) -> (r: Vec<u8>)
    requires
        idx <= outputs@.len(),
        forall|i: int| 0 <= i < outputs@.len() ==> (#[trigger] outputs@[i]).value
            < 0x1_0000_0000_0000,
    ensures
        r@ == spec_encode_outputs(cand_seq(outputs@).skip(idx as int)),
    decreases outputs@.len() - idx,
{
    if idx == outputs.len() {
        let r: Vec<u8> = Vec::new();
        proof {
            assert(cand_seq(outputs@).skip(idx as int) =~= Seq::<(u64, Seq<u8>)>::empty());
        }
        r
    } else {
        let rest = encode_outputs_from(outputs, idx + 1);
        let head = crate::bytes::be_encode(outputs[idx].value, 6);
        let head2 = concat_bytes(&head, &outputs[idx].owner);
        let r = concat_bytes(&head2, &rest);
        proof {
            let cs = cand_seq(outputs@);
            assert(cs.skip(idx as int).drop_first() =~= cs.skip(idx + 1));
            assert(cs.skip(idx as int)[0] == cs[idx as int]);
            assert(r@ =~= spec_encode_outputs(cs.skip(idx as int)));
        }
        r
    }
}

/// Encodes a transaction: version, input count, inputs, output count,
/// outputs. Decoding the result through the validator recovers the same
/// field values.
pub fn encode_tx(inputs: &Vec<(Vec<u8>, Vec<u8>)>, outputs: &Vec<OutputCandidate>) -> (r: Vec<u8>)
    requires
        inputs@.len() <= 255,
        outputs@.len() <= 255,
        forall|i: int| 0 <= i < inputs@.len() ==> (#[trigger] inputs@[i].1)@.len() <= 255,
        forall|i: int| 0 <= i < outputs@.len() ==> (#[trigger] outputs@[i]).value
            < 0x1_0000_0000_0000,
    ensures
        r@ == spec_encode_tx(ins_view(inputs@), cand_seq(outputs@)),
{
    let mut r: Vec<u8> = Vec::new();
    r.push(0);
    r.push(1);
    r.push(inputs.len() as u8);
    let enc_ins = encode_inputs_from(inputs, 0);
    let r2 = concat_bytes(&r, &enc_ins);
    let mut r3 = r2;
    r3.push(outputs.len() as u8);
    let enc_outs = encode_outputs_from(outputs, 0);
    let out = concat_bytes(&r3, &enc_outs);
    proof {
        assert(ins_view(inputs@).skip(0) =~= ins_view(inputs@));
        assert(cand_seq(outputs@).skip(0) =~= cand_seq(outputs@));
        assert(out@ =~= spec_encode_tx(ins_view(inputs@), cand_seq(outputs@)));
    }
    out
}

/// What a standalone submission leaves in the store: the validation result,
/// and on success the mempool blob grown by the candidate records.
pub open spec fn spec_standalone_effect<S: SignatureVerifier>(
    v: S,
    m: Map<Seq<u8>, Seq<u8>>,
    bytes: Seq<u8>,
    spent0: Set<Seq<u8>>,
) -> Result<Map<Seq<u8>, Seq<u8>>, ConsensusError> {
    match spec_verify_tx(v, m, bytes, spent0) {
        Err(e) => Err(e),
        Ok((end, spent, cands)) => crate::mempool::mempool_append(m, cands),
    }
}

} // verus!
