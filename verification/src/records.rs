//! Output records, candidate outputs, and the key namespace of the store.
//!
//! A persisted output record is exactly 39 bytes: a 2-byte version, a 4-byte
//! big-endian value, and a 33-byte owner key. Keys of the store carry a
//! one-byte class prefix: unspent outputs, blocks, the chain-tip pointer and
//! the mempool blob each live in their own class.

use vstd::prelude::*;
use crate::bytes::{be_bytes, be_encode, lemma_be_bytes_len};
use crate::crypto::digest_of;

verus! {

/// The single supported block and transaction version, as wire bytes.
pub open spec fn version_bytes() -> Seq<u8> {
    seq![0u8, 1u8]
}

/// The fixed coinbase reward granted to each accepted block.
pub const COINBASE_REWARD: u64 = 0xff00;

/// Key class prefixes.
pub const CLASS_UTXO: u8 = 0;

pub const CLASS_BLOCK: u8 = 1;

pub const CLASS_TIP: u8 = 2;

pub const CLASS_MEMPOOL: u8 = 3;

/// The store key of the output record with derived id `id`.
pub open spec fn utxo_store_key(id: Seq<u8>) -> Seq<u8> {
    seq![CLASS_UTXO] + id
}

/// The store key of the block with id `id`.
pub open spec fn block_store_key(id: Seq<u8>) -> Seq<u8> {
    seq![CLASS_BLOCK] + id
}

/// The store key of the chain-tip pointer.
pub open spec fn tip_store_key() -> Seq<u8> {
    seq![CLASS_TIP]
}

/// The store key of the mempool blob.
pub open spec fn mempool_store_key() -> Seq<u8> {
    seq![CLASS_MEMPOOL]
}

/// The id of an empty chain's tip: 32 zero bytes.
pub open spec fn zero_tip() -> Seq<u8> {
    Seq::new(32, |i: int| 0u8)
}

/// The current chain tip under contents `m`: the stored pointer, or the
/// all-zero id when no block was ever accepted.
pub open spec fn spec_tip(m: Map<Seq<u8>, Seq<u8>>) -> Seq<u8> {
    if m.dom().contains(tip_store_key()) {
        m[tip_store_key()]
    } else {
        zero_tip()
    }
}

/// A validated candidate output: the decoded value and the 33-byte
/// destination key it is payable to.
pub struct OutputCandidate {
    pub value: u64,
    pub owner: Vec<u8>,
}

impl OutputCandidate {
    /// A candidate that can be persisted: the value fits the record's 4-byte
    /// field and the owner is a 33-byte key.
    pub open spec fn wf(self) -> bool {
        self.value < 0x1_0000_0000 && self.owner@.len() == 33
    }

    /// The candidate as a pair of plain values.
    pub open spec fn view_pair(self) -> (u64, Seq<u8>) {
        (self.value, self.owner@)
    }
}

/// The candidates of a vector, as pairs of plain values.
pub open spec fn cand_seq(cands: Seq<OutputCandidate>) -> Seq<(u64, Seq<u8>)> {
    cands.map_values(|c: OutputCandidate| c.view_pair())
}

/// The 39-byte persisted form of an output record.
pub open spec fn spec_record_bytes(value: u64, owner: Seq<u8>) -> Seq<u8> {
    version_bytes() + be_bytes(value as nat, 4) + owner
}

/// Encodes an output record: version, 4-byte value, owner key.
pub fn encode_record(value: u64, owner: &Vec<u8>) -> (r: Vec<u8>)
    requires
        value < 0x1_0000_0000,
    ensures
        r@ == spec_record_bytes(value, owner@),
{
    let mut r: Vec<u8> = Vec::new();
    r.push(0);
    r.push(1);
    let mut val = be_encode(value, 4);
    let mut i: usize = 0;
    proof {
        lemma_be_bytes_len(value as nat, 4);
    }
    while i < val.len()
        invariant
            i <= val@.len(),
            val@ == be_bytes(value as nat, 4),
            r@ == version_bytes() + val@.subrange(0, i as int),
        decreases val.len() - i,
    {
        r.push(val[i]);
        assert(r@ =~= version_bytes() + val@.subrange(0, i + 1 as int));
        i += 1;
    }
    assert(r@ =~= version_bytes() + val@);
    let mut j: usize = 0;
    while j < owner.len()
        invariant
            j <= owner@.len(),
            r@ == version_bytes() + be_bytes(value as nat, 4) + owner@.subrange(0, j as int),
        decreases owner.len() - j,
    {
        r.push(owner[j]);
        assert(r@ =~= version_bytes() + be_bytes(value as nat, 4) + owner@.subrange(
            0,
            j + 1 as int,
        ));
        j += 1;
    }
    assert(r@ =~= spec_record_bytes(value, owner@));
    r
}

/// Builds the key `class` followed by `id`.
pub fn class_key(class: u8, id: &Vec<u8>) -> (r: Vec<u8>)
    ensures
        r@ == seq![class] + id@,
{
    let mut r: Vec<u8> = Vec::new();
    r.push(class);
    let mut i: usize = 0;
    while i < id.len()
        invariant
            i <= id@.len(),
            r@ == seq![class] + id@.subrange(0, i as int),
        decreases id.len() - i,
    {
        r.push(id[i]);
        assert(r@ =~= seq![class] + id@.subrange(0, i + 1 as int));
        i += 1;
    }
    assert(r@ =~= seq![class] + id@);
    r
}

/// Builds the one-byte sentinel key of class `class`.
pub fn sentinel_key(class: u8) -> (r: Vec<u8>)
    ensures
        r@ == seq![class],
{
    let mut r: Vec<u8> = Vec::new();
    r.push(class);
    assert(r@ =~= seq![class]);
    r
}

/// The two big-endian index bytes that scope a candidate's id to its
/// block-wide position. Two bytes cover every index an admissible block can
/// reach: under the 1,000,000-byte cap a block holds fewer than 2^16
/// outputs, so distinct indices give distinct bytes.
pub open spec fn cand_index_bytes(i: int) -> Seq<u8> {
    seq![((i / 256) % 256) as u8, (i % 256) as u8]
}

/// The derived id of the candidate at block-wide index `i`: the digest of the
/// record bytes, the header bytes, and the two index bytes.
pub open spec fn cand_id(cand: (u64, Seq<u8>), header: Seq<u8>, i: int) -> Seq<u8> {
    digest_of(spec_record_bytes(cand.0, cand.1) + header + cand_index_bytes(i))
}

} // verus!
