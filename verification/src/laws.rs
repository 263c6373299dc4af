//! The guarantees the validator gives, stated and proved once over the
//! specification functions that the validators' own contracts use.

use vstd::prelude::*;
use crate::block::{spec_committed, spec_verify_block, entry_map, cand_entries};
use crate::bytes::be_val;
use crate::crypto::{digest_of, spec_difficulty_ok, SignatureVerifier};
use crate::errors::ConsensusError;
use crate::records::{
    block_store_key,
    cand_index_bytes,
    spec_record_bytes,
    spec_tip,
    tip_store_key,
    utxo_store_key,
    version_bytes,
    COINBASE_REWARD,
};
use crate::tx::{
    scan_inputs,
    scan_outputs,
    spec_encode_inputs,
    spec_encode_outputs,
    spec_encode_tx,
    spec_verify_tx,
};

verus! {

/// The ids of a sequence of inputs, folded into an initial spent set in
/// order.
pub open spec fn input_ids_fold(spent: Set<Seq<u8>>, ins: Seq<(Seq<u8>, Seq<u8>)>) -> Set<Seq<u8>>
    decreases ins.len(),
{
    if ins.len() == 0 {
        spent
    } else {
        input_ids_fold(spent.insert(ins[0].0), ins.drop_first())
    }
}

/// The total value of the records a sequence of inputs references.
pub open spec fn input_total(m: Map<Seq<u8>, Seq<u8>>, ins: Seq<(Seq<u8>, Seq<u8>)>) -> nat
    decreases ins.len(),
{
    if ins.len() == 0 {
        0
    } else {
        be_val(m[utxo_store_key(ins[0].0)].subrange(2, 6)) + input_total(m, ins.drop_first())
    }
}

/// The total value of a sequence of outputs.
pub open spec fn output_total(outs: Seq<(u64, Seq<u8>)>) -> nat
    decreases outs.len(),
{
    if outs.len() == 0 {
        0
    } else {
        outs[0].0 as nat + output_total(outs.drop_first())
    }
}

/// The inputs are well-formed and every one is spendable: a 32-byte id of a
/// distinct, unspent, 39-byte stored record, with a signature the verifier
/// accepts for it.
pub open spec fn inputs_spendable<S: SignatureVerifier>(
    v: S,
    m: Map<Seq<u8>, Seq<u8>>,
    ins: Seq<(Seq<u8>, Seq<u8>)>,
    spent: Set<Seq<u8>>,
) -> bool {
    &&& forall|i: int| 0 <= i < ins.len() ==> (#[trigger] ins[i]).0.len() == 32
    &&& forall|i: int| 0 <= i < ins.len() ==> (#[trigger] ins[i]).1.len() <= 255
    &&& forall|i: int| 0 <= i < ins.len() ==> !spent.contains((#[trigger] ins[i]).0)
    &&& forall|i: int, j: int| 0 <= i < j < ins.len() ==> ins[i].0 != ins[j].0
    &&& forall|i: int|
        0 <= i < ins.len() ==> m.dom().contains(utxo_store_key((#[trigger] ins[i]).0))
    &&& forall|i: int|
        0 <= i < ins.len() ==> m[utxo_store_key((#[trigger] ins[i]).0)].len() == 39
    &&& forall|i: int|
        0 <= i < ins.len() ==> v.sig_ok(
            m[utxo_store_key((#[trigger] ins[i]).0)].subrange(6, 39),
            ins[i].1,
            ins[i].0,
        )
}

/// The outputs are well-formed: each value fits the record's 4-byte field
/// and each destination key is 33 bytes.
pub open spec fn outputs_wf(outs: Seq<(u64, Seq<u8>)>) -> bool {
    &&& forall|i: int| 0 <= i < outs.len() ==> (#[trigger] outs[i]).0 < 0x1_0000_0000
    &&& forall|i: int| 0 <= i < outs.len() ==> (#[trigger] outs[i]).1.len() == 33
}

proof fn lemma_scan_encoded_inputs<S: SignatureVerifier>(
    v: S,
    m: Map<Seq<u8>, Seq<u8>>,
    bytes: Seq<u8>,
    ins: Seq<(Seq<u8>, Seq<u8>)>,
    pos: int,
    spent: Set<Seq<u8>>,
    sum: nat,
)
    requires
        0 <= pos,
        pos + spec_encode_inputs(ins).len() <= bytes.len(),
        bytes.subrange(pos, pos + spec_encode_inputs(ins).len()) == spec_encode_inputs(ins),
        inputs_spendable(v, m, ins, spent),
    ensures
        scan_inputs(v, m, bytes, pos, ins.len() as nat, spent, sum) == Ok::<
            (int, Set<Seq<u8>>, nat),
            ConsensusError,
        >(
            (
                pos + spec_encode_inputs(ins).len(),
                input_ids_fold(spent, ins),
                sum + input_total(m, ins),
            ),
        ),
    decreases ins.len(),
{
    if ins.len() == 0 {
    } else {
        let enc = spec_encode_inputs(ins);
        let id0 = ins[0].0;
        let sig0 = ins[0].1;
        let l0 = sig0.len() as int;
        let rest = ins.drop_first();
        let enc_rest = spec_encode_inputs(rest);
        assert(enc == id0 + seq![sig0.len() as u8] + sig0 + enc_rest);
        assert(enc.len() == 33 + l0 + enc_rest.len());
        assert(bytes.subrange(pos, pos + 32) =~= id0) by {
            assert forall|j: int| 0 <= j < 32 implies bytes.subrange(pos, pos + 32)[j] == id0[j] by {
                assert(bytes.subrange(pos, pos + enc.len())[j] == enc[j]);
            }
        }
        assert(bytes[pos + 32] == sig0.len() as u8) by {
            assert(bytes.subrange(pos, pos + enc.len())[32] == enc[32]);
        }
        assert(bytes.subrange(pos + 33, pos + 33 + l0) =~= sig0) by {
            assert forall|j: int|
                0 <= j < l0 implies bytes.subrange(pos + 33, pos + 33 + l0)[j] == sig0[j] by {
                assert(bytes.subrange(pos, pos + enc.len())[33 + j] == enc[33 + j]);
            }
        }
        let pos2 = pos + 33 + l0;
        assert(bytes.subrange(pos2, pos2 + enc_rest.len()) =~= enc_rest) by {
            assert forall|j: int|
                0 <= j < enc_rest.len() implies bytes.subrange(pos2, pos2 + enc_rest.len())[j]
                == enc_rest[j] by {
                assert(bytes.subrange(pos, pos + enc.len())[33 + l0 + j] == enc[33 + l0 + j]);
            }
        }
        assert(inputs_spendable(v, m, rest, spent.insert(id0))) by {
            assert(forall|i: int| 0 <= i < rest.len() ==> rest[i] == ins[i + 1]);
        }
        lemma_scan_encoded_inputs(v, m, bytes, rest, pos2, spent.insert(id0), sum + be_val(
            m[utxo_store_key(id0)].subrange(2, 6),
        ));
    }
}

proof fn lemma_scan_encoded_outputs(
    bytes: Seq<u8>,
    outs: Seq<(u64, Seq<u8>)>,
    pos: int,
    sum_inputs: nat,
    sum_outputs: nat,
    acc: Seq<(u64, Seq<u8>)>,
)
    requires
        0 <= pos,
        pos + spec_encode_outputs(outs).len() <= bytes.len(),
        bytes.subrange(pos, pos + spec_encode_outputs(outs).len()) == spec_encode_outputs(outs),
        outputs_wf(outs),
        sum_outputs + output_total(outs) <= sum_inputs,
    ensures
        scan_outputs(bytes, pos, outs.len() as nat, sum_inputs, sum_outputs, acc) == Ok::<
            (int, Seq<(u64, Seq<u8>)>),
            ConsensusError,
        >((pos + spec_encode_outputs(outs).len(), acc + outs)),
    decreases outs.len(),
{
    if outs.len() == 0 {
        assert(acc + outs =~= acc);
    } else {
        let enc = spec_encode_outputs(outs);
        let o0 = outs[0];
        let vb = crate::bytes::be_bytes(o0.0 as nat, 6);
        let rest = outs.drop_first();
        let enc_rest = spec_encode_outputs(rest);
        crate::bytes::lemma_be_bytes_len(o0.0 as nat, 6);
        assert(enc == vb + o0.1 + enc_rest);
        assert(enc.len() == 39 + enc_rest.len());
        assert(bytes.subrange(pos, pos + 6) =~= vb) by {
            assert forall|j: int| 0 <= j < 6 implies bytes.subrange(pos, pos + 6)[j] == vb[j] by {
                assert(bytes.subrange(pos, pos + enc.len())[j] == enc[j]);
            }
        }
        assert(be_val(bytes.subrange(pos, pos + 6)) == o0.0) by {
            reveal_with_fuel(crate::bytes::pow256, 7);
            crate::bytes::lemma_be_bytes_val(o0.0 as nat, 6);
        }
        assert(bytes.subrange(pos + 6, pos + 39) =~= o0.1) by {
            assert forall|j: int|
                0 <= j < 33 implies bytes.subrange(pos + 6, pos + 39)[j] == o0.1[j] by {
                assert(bytes.subrange(pos, pos + enc.len())[6 + j] == enc[6 + j]);
            }
        }
        let pos2 = pos + 39;
        assert(bytes.subrange(pos2, pos2 + enc_rest.len()) =~= enc_rest) by {
            assert forall|j: int|
                0 <= j < enc_rest.len() implies bytes.subrange(pos2, pos2 + enc_rest.len())[j]
                == enc_rest[j] by {
                assert(bytes.subrange(pos, pos + enc.len())[39 + j] == enc[39 + j]);
            }
        }
        assert(outputs_wf(rest) && output_total(outs) == o0.0 + output_total(rest)) by {
            assert(forall|i: int| 0 <= i < rest.len() ==> rest[i] == outs[i + 1]);
        }
        lemma_scan_encoded_outputs(
            bytes,
            rest,
            pos2,
            sum_inputs,
            sum_outputs + o0.0 as nat,
            acc.push((o0.0, bytes.subrange(pos + 6, pos + 39))),
        );
        assert(acc.push((o0.0, bytes.subrange(pos + 6, pos + 39))) + rest =~= acc + outs);
    }
}

/// The fixed-width round trip: encoding a transaction from well-formed,
/// spendable fields and decoding it through the validator's parser succeeds
/// and recovers exactly the encoded inputs and outputs, consuming exactly
/// the encoding's length.
pub proof fn lemma_tx_round_trip<S: SignatureVerifier>(
    v: S,
    m: Map<Seq<u8>, Seq<u8>>,
    ins: Seq<(Seq<u8>, Seq<u8>)>,
    outs: Seq<(u64, Seq<u8>)>,
    spent0: Set<Seq<u8>>,
)
    requires
        ins.len() <= 255,
        outs.len() <= 255,
        inputs_spendable(v, m, ins, spent0),
        outputs_wf(outs),
        output_total(outs) <= input_total(m, ins),
    ensures
        spec_verify_tx(v, m, spec_encode_tx(ins, outs), spent0) == Ok::<
            (int, Set<Seq<u8>>, Seq<(u64, Seq<u8>)>),
            ConsensusError,
        >(
            (
                spec_encode_tx(ins, outs).len() as int,
                input_ids_fold(spent0, ins),
                outs,
            ),
        ),
{
    let bytes = spec_encode_tx(ins, outs);
    let enc_ins = spec_encode_inputs(ins);
    let enc_outs = spec_encode_outputs(outs);
    assert(bytes == version_bytes() + seq![ins.len() as u8] + enc_ins + seq![outs.len() as u8]
        + enc_outs);
    assert(bytes.len() == 4 + enc_ins.len() + enc_outs.len());
    assert(bytes.subrange(0, 2) =~= version_bytes());
    assert(bytes[2] == ins.len() as u8);
    assert(bytes.subrange(3, 3 + enc_ins.len() as int) =~= enc_ins) by {
        assert forall|j: int|
            0 <= j < enc_ins.len() implies bytes.subrange(3, 3 + enc_ins.len() as int)[j]
            == enc_ins[j] by {
            assert(bytes[3 + j] == enc_ins[j]);
        }
    }
    lemma_scan_encoded_inputs(v, m, bytes, ins, 3, spent0, 0);
    let pos = 3 + enc_ins.len() as int;
    assert(bytes[pos] == outs.len() as u8);
    assert(bytes.subrange(pos + 1, pos + 1 + enc_outs.len()) =~= enc_outs) by {
        assert forall|j: int|
            0 <= j < enc_outs.len() implies bytes.subrange(pos + 1, pos + 1 + enc_outs.len())[j]
            == enc_outs[j] by {
            assert(bytes[pos + 1 + j] == enc_outs[j]);
        }
    }
    lemma_scan_encoded_outputs(bytes, outs, pos + 1, input_total(m, ins), 0, Seq::empty());
    assert(Seq::<(u64, Seq<u8>)>::empty() + outs =~= outs);
}

/// After a block is accepted, the chain tip of the committed contents is the
/// block's id, and the block itself is stored under that id.
pub proof fn lemma_accept_updates_tip(
    m: Map<Seq<u8>, Seq<u8>>,
    block: Seq<u8>,
    spent: Set<Seq<u8>>,
    cands: Seq<(u64, Seq<u8>)>,
)
    ensures
        spec_tip(spec_committed(m, block, spent, cands)) == digest_of(block),
        spec_committed(m, block, spent, cands).dom().contains(block_store_key(digest_of(block))),
{
    let header = block.subrange(0, 70);
    let dest = block.subrange(70, 103);
    let cb = spec_record_bytes(COINBASE_REWARD, dest);
    let entries = cand_entries(cands, header).push((utxo_store_key(digest_of(cb)), cb)).push(
        (block_store_key(digest_of(block)), block),
    ).push((tip_store_key(), digest_of(block)));
    assert(entries.drop_last().push((tip_store_key(), digest_of(block))) =~= entries);
    assert(entry_map(entries) == entry_map(entries.drop_last()).insert(
        tip_store_key(),
        digest_of(block),
    ));
    assert(entries.drop_last().drop_last().push((block_store_key(digest_of(block)), block))
        =~= entries.drop_last());
    assert(entry_map(entries.drop_last()) == entry_map(
        entries.drop_last().drop_last(),
    ).insert(block_store_key(digest_of(block)), block));
    assert(entry_map(entries).dom().contains(tip_store_key()));
    assert(entry_map(entries).dom().contains(block_store_key(digest_of(block))));
}

/// After a block is accepted, the committed contents hold the block itself
/// under its id, and a coinbase record with the fixed reward, payable to the
/// destination key embedded in the block, under the record's digest.
pub proof fn lemma_accept_stores_block_and_coinbase(
    m: Map<Seq<u8>, Seq<u8>>,
    block: Seq<u8>,
    spent: Set<Seq<u8>>,
    cands: Seq<(u64, Seq<u8>)>,
)
    ensures
        ({
            let committed = spec_committed(m, block, spent, cands);
            let cb = spec_record_bytes(COINBASE_REWARD, block.subrange(70, 103));
            &&& committed.dom().contains(block_store_key(digest_of(block)))
            &&& committed[block_store_key(digest_of(block))] == block
            &&& committed.dom().contains(utxo_store_key(digest_of(cb)))
            &&& committed[utxo_store_key(digest_of(cb))] == cb
        }),
{
    let header = block.subrange(0, 70);
    let dest = block.subrange(70, 103);
    let cb = spec_record_bytes(COINBASE_REWARD, dest);
    let e1 = cand_entries(cands, header).push((utxo_store_key(digest_of(cb)), cb));
    let e2 = e1.push((block_store_key(digest_of(block)), block));
    let entries = e2.push((tip_store_key(), digest_of(block)));
    assert(entries.drop_last() =~= e2);
    assert(entry_map(entries) == entry_map(e2).insert(tip_store_key(), digest_of(block)));
    assert(e2.drop_last() =~= e1);
    assert(entry_map(e2) == entry_map(e1).insert(block_store_key(digest_of(block)), block));
    assert(entry_map(e1) == entry_map(e1.drop_last()).insert(utxo_store_key(digest_of(cb)), cb));
    // the three trailing keys differ pairwise by their class prefix or length
    assert(utxo_store_key(digest_of(cb))[0] == 0u8);
    assert(block_store_key(digest_of(block))[0] == 1u8);
    assert(tip_store_key() =~= seq![2u8]);
    assert(utxo_store_key(digest_of(cb)) != block_store_key(digest_of(block)));
    assert(utxo_store_key(digest_of(cb)) != tip_store_key());
    assert(block_store_key(digest_of(block)) != tip_store_key());
}

/// A candidate block that passes the size, header, version and difficulty
/// checks but whose previous-block id differs from the current tip is
/// rejected with `PrevHashMismatch`. (The validator's contract adds that a
/// rejection leaves the store unchanged.)
pub proof fn lemma_prev_mismatch_rejected<S: SignatureVerifier>(
    v: S,
    m: Map<Seq<u8>, Seq<u8>>,
    difficulty: nat,
    block: Seq<u8>,
)
    requires
        block.len() <= 1_000_000,
        block.len() >= 70,
        block.subrange(0, 2) == version_bytes(),
        spec_difficulty_ok(block.subrange(0, 70), difficulty),
        block.subrange(2, 34) != spec_tip(m),
    ensures
        spec_verify_block(v, m, difficulty, block) == Err::<
            (Set<Seq<u8>>, Seq<(u64, Seq<u8>)>),
            ConsensusError,
        >(ConsensusError::PrevHashMismatch),
{
}

/// A block whose byte length exceeds the admission cap is rejected with
/// `OversizedBlock`, whatever else it holds. (The validator's contract adds
/// that a rejection causes no store write.)
pub proof fn lemma_oversized_rejected<S: SignatureVerifier>(
    v: S,
    m: Map<Seq<u8>, Seq<u8>>,
    difficulty: nat,
    block: Seq<u8>,
)
    requires
        block.len() > 1_000_000,
    ensures
        spec_verify_block(v, m, difficulty, block) == Err::<
            (Set<Seq<u8>>, Seq<(u64, Seq<u8>)>),
            ConsensusError,
        >(ConsensusError::OversizedBlock),
{
}

/// An input whose referenced output id is absent from the unspent set, or
/// already spent, fails the scan with `InvalidUtxoReference`, whatever
/// follows it.
pub proof fn lemma_missing_utxo_rejected<S: SignatureVerifier>(
    v: S,
    m: Map<Seq<u8>, Seq<u8>>,
    bytes: Seq<u8>,
    pos: int,
    remaining: nat,
    spent: Set<Seq<u8>>,
    sum: nat,
)
    requires
        remaining > 0,
        pos + 32 <= bytes.len(),
        spent.contains(bytes.subrange(pos, pos + 32)) || !m.dom().contains(
            utxo_store_key(bytes.subrange(pos, pos + 32)),
        ),
    ensures
        scan_inputs(v, m, bytes, pos, remaining, spent, sum) == Err::<
            (int, Set<Seq<u8>>, nat),
            ConsensusError,
        >(ConsensusError::InvalidUtxoReference),
{
}

/// A transaction whose first input references an output id that the store
/// does not hold is rejected with `InvalidUtxoReference`. (The validator's
/// contract adds that no candidate is produced and the store, including the
/// mempool, is unchanged.)
pub proof fn lemma_tx_missing_utxo_rejected<S: SignatureVerifier>(
    v: S,
    m: Map<Seq<u8>, Seq<u8>>,
    bytes: Seq<u8>,
    spent0: Set<Seq<u8>>,
)
    requires
        bytes.len() >= 35,
        bytes.subrange(0, 2) == version_bytes(),
        bytes[2] > 0,
        !spent0.contains(bytes.subrange(3, 35)),
        !m.dom().contains(utxo_store_key(bytes.subrange(3, 35))),
    ensures
        spec_verify_tx(v, m, bytes, spent0) == Err::<
            (int, Set<Seq<u8>>, Seq<(u64, Seq<u8>)>),
            ConsensusError,
        >(ConsensusError::InvalidUtxoReference),
{
    lemma_missing_utxo_rejected(v, m, bytes, 3, bytes[2] as nat, spent0, 0);
}

/// As soon as the running output total exceeds the running input total at
/// some output's value field, the scan stops with `OutputsExceedInputs`.
/// The premises constrain nothing past that value field: outputs beyond the
/// failing one are never decoded.
pub proof fn lemma_overspend_rejected(
    bytes: Seq<u8>,
    pos: int,
    remaining: nat,
    sum_inputs: nat,
    sum_outputs: nat,
    cands: Seq<(u64, Seq<u8>)>,
)
    requires
        remaining > 0,
        pos + 6 <= bytes.len(),
        sum_outputs + be_val(bytes.subrange(pos, pos + 6)) > sum_inputs,
    ensures
        scan_outputs(bytes, pos, remaining, sum_inputs, sum_outputs, cands) == Err::<
            (int, Seq<(u64, Seq<u8>)>),
            ConsensusError,
        >(ConsensusError::OutputsExceedInputs),
{
}

/// Within one block the id derivation is injective up to digest collisions:
/// for well-formed candidates (33-byte owner keys) and block-wide indices
/// below 2^16 — more than any block under the 1,000,000-byte cap can hold —
/// two distinct indices always digest distinct byte strings, also when the
/// records coincide. The derived ids themselves are then distinct whenever
/// the digest is collision-free, which is not statable of an uninterpreted
/// digest.
pub proof fn lemma_cand_id_inputs_distinct(
    a: (u64, Seq<u8>),
    b: (u64, Seq<u8>),
    header: Seq<u8>,
    i: int,
    j: int,
)
    requires
        a.1.len() == 33,
        b.1.len() == 33,
        0 <= i < 65536,
        0 <= j < 65536,
        i != j,
    ensures
        spec_record_bytes(a.0, a.1) + header + cand_index_bytes(i) != spec_record_bytes(
            b.0,
            b.1,
        ) + header + cand_index_bytes(j),
{
    let x = spec_record_bytes(a.0, a.1) + header + cand_index_bytes(i);
    let y = spec_record_bytes(b.0, b.1) + header + cand_index_bytes(j);
    crate::bytes::lemma_be_bytes_len(a.0 as nat, 4);
    crate::bytes::lemma_be_bytes_len(b.0 as nat, 4);
    let n = x.len() as int;
    assert(n == 41 + header.len());
    assert(y.len() == n);
    if x == y {
        assert(x[n - 2] == cand_index_bytes(i)[0] && x[n - 1] == cand_index_bytes(i)[1]);
        assert(y[n - 2] == cand_index_bytes(j)[0] && y[n - 1] == cand_index_bytes(j)[1]);
        assert(i / 256 < 256 && j / 256 < 256) by (nonlinear_arith)
            requires
                0 <= i < 65536,
                0 <= j < 65536,
        ;
        assert(i / 256 == j / 256 && i % 256 == j % 256);
        vstd::arithmetic::div_mod::lemma_fundamental_div_mod(i, 256);
        vstd::arithmetic::div_mod::lemma_fundamental_div_mod(j, 256);
        assert(false);
    }
}

/// The overspend stop, at the level of the whole validator: when a
/// transaction's input section scans successfully with input total
/// `sum_inputs`, and the output scan that begins after it reaches a value
/// field that pushes the running total past `sum_inputs`, the validation of
/// the whole transaction yields `OutputsExceedInputs`. The premises
/// constrain nothing past that value field, so outputs beyond the failing
/// one are never decoded.
pub proof fn lemma_tx_overspend_rejected<S: SignatureVerifier>(
    v: S,
    m: Map<Seq<u8>, Seq<u8>>,
    bytes: Seq<u8>,
    spent0: Set<Seq<u8>>,
    pos: int,
    spent: Set<Seq<u8>>,
    sum_inputs: nat,
    fail_pos: int,
    remaining: nat,
    sum_outputs: nat,
    cands: Seq<(u64, Seq<u8>)>,
)
    requires
        bytes.len() >= 3,
        bytes.subrange(0, 2) == version_bytes(),
        scan_inputs(v, m, bytes, 3, bytes[2] as nat, spent0, 0) == Ok::<
            (int, Set<Seq<u8>>, nat),
            ConsensusError,
        >((pos, spent, sum_inputs)),
        pos + 1 <= bytes.len(),
        // the output scan reaches the failing value field
        scan_outputs(bytes, pos + 1, bytes[pos] as nat, sum_inputs, 0, Seq::empty())
            == scan_outputs(bytes, fail_pos, remaining, sum_inputs, sum_outputs, cands),
        remaining > 0,
        fail_pos + 6 <= bytes.len(),
        sum_outputs + be_val(bytes.subrange(fail_pos, fail_pos + 6)) > sum_inputs,
    ensures
        spec_verify_tx(v, m, bytes, spent0) == Err::<
            (int, Set<Seq<u8>>, Seq<(u64, Seq<u8>)>),
            ConsensusError,
        >(ConsensusError::OutputsExceedInputs),
{
    lemma_overspend_rejected(bytes, fail_pos, remaining, sum_inputs, sum_outputs, cands);
}

/// A rejected block leaves the store unchanged (the validator's contract),
/// so a resubmission is decided by the same contents and yields the same
/// error: rejection is idempotent.
pub proof fn lemma_rejection_idempotent<S: SignatureVerifier>(
    v: S,
    pre: Map<Seq<u8>, Seq<u8>>,
    post: Map<Seq<u8>, Seq<u8>>,
    difficulty: nat,
    block: Seq<u8>,
    e: ConsensusError,
)
    requires
        e != ConsensusError::StorageFailure,
        spec_verify_block(v, pre, difficulty, block) == Err::<
            (Set<Seq<u8>>, Seq<(u64, Seq<u8>)>),
            ConsensusError,
        >(e),
        post == pre,
    ensures
        spec_verify_block(v, post, difficulty, block) == Err::<
            (Set<Seq<u8>>, Seq<(u64, Seq<u8>)>),
            ConsensusError,
        >(e),
{
}

} // verus!
