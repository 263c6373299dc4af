//! The mempool: validated, unconfirmed candidate outputs awaiting block
//! inclusion.
//!
//! The pool is one blob under a sentinel key, a back-to-back sequence of
//! 39-byte output records. Admission appends to it as a single
//! read-modify-write; a blob whose length is not a whole number of records
//! is corrupt and reported as `MalformedMempoolState`.

use vstd::prelude::*;
use crate::crypto::{digest_of, sha256_digest, SignatureVerifier};
use crate::errors::ConsensusError;
use crate::records::{
    cand_seq,
    mempool_store_key,
    sentinel_key,
    spec_record_bytes,
    encode_record,
    OutputCandidate,
    CLASS_MEMPOOL,
};
use crate::store::{apply_writes, delete_keys, kv_contents, puts_map, KvStore};
use crate::bytes::{concat_bytes, subrange_vec};
use crate::tx::{id_set, spec_standalone_effect, spec_verify_tx, verify_tx, TxOutcome};

verus! {

/// The mempool blob under contents `m`: the stored bytes, or empty when the
/// key is absent.
pub open spec fn mempool_blob(m: Map<Seq<u8>, Seq<u8>>) -> Seq<u8> {
    if m.dom().contains(mempool_store_key()) {
        m[mempool_store_key()]
    } else {
        Seq::empty()
    }
}

/// The blob a sequence of candidate outputs serializes to.
pub open spec fn cands_blob(cands: Seq<(u64, Seq<u8>)>) -> Seq<u8>
    decreases cands.len(),
{
    if cands.len() == 0 {
        Seq::empty()
    } else {
        cands_blob(cands.drop_last()) + spec_record_bytes(cands.last().0, cands.last().1)
    }
}

/// What admitting candidates leaves in the store: the mempool blob grown by
/// their records, or `MalformedMempoolState` when the stored blob is not a
/// whole number of records.
pub open spec fn mempool_append(m: Map<Seq<u8>, Seq<u8>>, cands: Seq<(u64, Seq<u8>)>) -> Result<
    Map<Seq<u8>, Seq<u8>>,
    ConsensusError,
> {
    let blob = if m.dom().contains(mempool_store_key()) {
        m[mempool_store_key()]
    } else {
        Seq::empty()
    };
    if blob.len() % 39 != 0 {
        Err(ConsensusError::MalformedMempoolState)
    } else {
        Ok(m.insert(mempool_store_key(), blob + cands_blob(cands)))
    }
}

/// Appends the candidates' records to the mempool blob as one
/// read-modify-write.
pub(crate) fn append_candidates(store: &mut KvStore, cands: &Vec<OutputCandidate>) -> (r: Result<
    (),
    ConsensusError,
>)
    requires
        forall|j: int| 0 <= j < cands@.len() ==> cands@[j].wf(),
    ensures
        match r {
            Ok(_) => mempool_append(kv_contents(*old(store)), cand_seq(cands@)) == Ok::<
                Map<Seq<u8>, Seq<u8>>,
                ConsensusError,
            >(kv_contents(*final(store))),
            Err(e) => {
                &&& (e == ConsensusError::MalformedMempoolState || e
                    == ConsensusError::StorageFailure)
                &&& e == ConsensusError::MalformedMempoolState ==> (kv_contents(*final(store))
                    == kv_contents(*old(store)) && mempool_append(
                    kv_contents(*old(store)),
                    cand_seq(cands@),
                ) == Err::<Map<Seq<u8>, Seq<u8>>, ConsensusError>(e))
                &&& e == ConsensusError::StorageFailure ==> (kv_contents(*final(store))
                    == kv_contents(*old(store)) || mempool_append(
                    kv_contents(*old(store)),
                    cand_seq(cands@),
                ) == Ok::<Map<Seq<u8>, Seq<u8>>, ConsensusError>(kv_contents(*final(store))))
            },
        },
{
    let ghost pre = kv_contents(*old(store));
    let mkey = sentinel_key(CLASS_MEMPOOL);
    let blob0 = match store.get(&mkey) {
        Err(e) => {
            return Err(e);
        },
        Ok(Some(b)) => b,
        Ok(None) => Vec::new(),
    };
    if blob0.len() % 39 != 0 {
        return Err(ConsensusError::MalformedMempoolState);
    }
    let ghost blob0s = blob0@;
    let mut blob = blob0;
    let mut i: usize = 0;
    proof {
        assert(cand_seq(cands@).subrange(0, 0) =~= Seq::<(u64, Seq<u8>)>::empty());
        assert(blob@ =~= blob0s + cands_blob(cand_seq(cands@).subrange(0, 0)));
    }
    while i < cands.len()
        invariant
            i <= cands@.len(),
            forall|j: int| 0 <= j < cands@.len() ==> cands@[j].wf(),
            blob@ == blob0s + cands_blob(cand_seq(cands@).subrange(0, i as int)),
        decreases cands.len() - i,
    {
        let rec = encode_record(cands[i].value, &cands[i].owner);
        proof {
            let cs = cand_seq(cands@);
            assert(cs.subrange(0, i + 1 as int).drop_last() =~= cs.subrange(0, i as int));
            assert(cs.subrange(0, i + 1 as int).last() == cands@[i as int].view_pair());
            assert(blob@ + rec@ =~= blob0s + cands_blob(cs.subrange(0, i + 1 as int)));
        }
        blob = concat_bytes(&blob, &rec);
        i = i + 1;
    }
    proof {
        assert(cand_seq(cands@).subrange(0, cands@.len() as int) =~= cand_seq(cands@));
    }
    let deletes: Vec<Vec<u8>> = Vec::new();
    let mut puts: Vec<(Vec<u8>, Vec<u8>)> = Vec::new();
    puts.push((mkey, blob));
    let ghost dst = apply_writes(pre, deletes@, puts@);
    proof {
        assert(delete_keys(deletes@) =~= Set::<Seq<u8>>::empty());
        assert(pre.remove_keys(delete_keys(deletes@)) =~= pre);
        assert(puts_map(puts@.drop_last()) =~= Map::<Seq<u8>, Seq<u8>>::empty());
        assert(puts_map(puts@) =~= Map::<Seq<u8>, Seq<u8>>::empty().insert(
            puts@[0].0@,
            puts@[0].1@,
        ));
        assert(dst =~= pre.insert(mempool_store_key(), blob0s + cands_blob(cand_seq(cands@))));
    }
    match store.write(&deletes, &puts) {
        Ok(_) => Ok(()),
        Err(e) => Err(e),
    }
}

/// Validates a standalone transaction and, on success, admits its candidate
/// outputs to the mempool.
pub fn admit_tx<S: SignatureVerifier>(store: &mut KvStore, verifier: &S, tx_bytes: &Vec<u8>) -> (r:
    Result<TxOutcome, ConsensusError>)
    ensures
        ({
            let pre = kv_contents(*old(store));
            match r {
                Ok(out) => {
                    &&& (spec_verify_tx(*verifier, pre, tx_bytes@, Set::empty()) matches Ok(p)
                        && p.0 == out.consumed as int && p.2 == cand_seq(out.candidates@))
                    &&& spec_standalone_effect(*verifier, pre, tx_bytes@, Set::empty()) == Ok::<
                        Map<Seq<u8>, Seq<u8>>,
                        ConsensusError,
                    >(kv_contents(*final(store)))
                },
                Err(e) => {
                    // the version check precedes every store access, so a
                    // storage failure can only arise past it
                    &&& e == ConsensusError::StorageFailure ==> (tx_bytes@.len() >= 3
                        && tx_bytes@.subrange(0, 2) == crate::records::version_bytes())
                    &&& e != ConsensusError::StorageFailure ==> (spec_standalone_effect(
                        *verifier,
                        pre,
                        tx_bytes@,
                        Set::empty(),
                    ) == Err::<Map<Seq<u8>, Seq<u8>>, ConsensusError>(e) && kv_contents(
                        *final(store),
                    ) == pre)
                    &&& e == ConsensusError::StorageFailure ==> (kv_contents(*final(store)) == pre
                        || spec_standalone_effect(*verifier, pre, tx_bytes@, Set::empty()) == Ok::<
                        Map<Seq<u8>, Seq<u8>>,
                        ConsensusError,
                    >(kv_contents(*final(store))))
                },
            }
        }),
{
    let mut spent: Vec<Vec<u8>> = Vec::new();
    proof {
        assert(id_set(spent@) =~= Set::<Seq<u8>>::empty());
    }
    verify_tx(store, verifier, tx_bytes, false, &mut spent)
}

/// What remains of a well-formed mempool blob after evicting every record
/// whose digest is among `ids`.
pub open spec fn evict_blob(blob: Seq<u8>, ids: Set<Seq<u8>>) -> Seq<u8>
    decreases blob.len(),
{
    if blob.len() < 39 {
        Seq::empty()
    } else {
        let chunk = blob.subrange(0, 39);
        let rest = evict_blob(blob.skip(39), ids);
        if ids.contains(digest_of(chunk)) {
            rest
        } else {
            chunk + rest
        }
    }
}

/// Whether `ids` holds a vector entry equal to `id`.
fn ids_contain(ids: &Vec<Vec<u8>>, id: &Vec<u8>) -> (r: bool)
    ensures
        r == id_set(ids@).contains(id@),
{
    let mut i: usize = 0;
    while i < ids.len()
        invariant
            i <= ids@.len(),
            forall|j: int| 0 <= j < i ==> ids@[j]@ != id@,
        decreases ids.len() - i,
    {
        if crate::bytes::bytes_eq(&ids[i], id) {
            return true;
        }
        i += 1;
    }
    false
}

/// Returns up to `limit` records currently held by the mempool, in order.
pub fn select_for_block(store: &KvStore, limit: usize) -> (r: Result<Vec<Vec<u8>>, ConsensusError>)
    ensures
        ({
            let blob = mempool_blob(kv_contents(*store));
            match r {
                Ok(v) => {
                    &&& blob.len() % 39 == 0
                    &&& v@.len() == if limit * 39 <= blob.len() {
                        limit as int
                    } else {
                        blob.len() as int / 39
                    }
                    &&& forall|i: int|
                        0 <= i < v@.len() ==> v@[i]@ == blob.subrange(39 * i, 39 * i + 39)
                },
                Err(e) => {
                    &&& e == ConsensusError::MalformedMempoolState || e
                        == ConsensusError::StorageFailure
                    &&& e == ConsensusError::MalformedMempoolState ==> blob.len() % 39 != 0
                },
            }
        }),
{
    let mkey = sentinel_key(CLASS_MEMPOOL);
    let blob = match store.get(&mkey) {
        Err(e) => {
            return Err(e);
        },
        Ok(Some(b)) => b,
        Ok(None) => Vec::new(),
    };
    if blob.len() % 39 != 0 {
        return Err(ConsensusError::MalformedMempoolState);
    }
    let blob_len = blob.len();
    let n = blob.len() / 39;
    let take = if limit <= n {
        limit
    } else {
        n
    };
    proof {
        vstd::arithmetic::div_mod::lemma_fundamental_div_mod(blob@.len() as int, 39);
        assert(take * 39 <= n * 39) by (nonlinear_arith)
            requires
                take <= n,
        ;
        assert(n * 39 <= blob@.len());
    }
    let mut out: Vec<Vec<u8>> = Vec::new();
    let mut i: usize = 0;
    while i < take
        invariant
            i <= take,
            blob_len == blob@.len(),
            take * 39 <= blob@.len(),
            out@.len() == i,
            forall|j: int| 0 <= j < i ==> out@[j]@ == blob@.subrange(39 * j, 39 * j + 39),
        decreases take - i,
    {
        proof {
            assert((i + 1) * 39 <= take * 39) by (nonlinear_arith)
                requires
                    i + 1 <= take,
            ;
            assert(i * 39 + 39 == (i + 1) * 39) by (nonlinear_arith);
        }
        let chunk = subrange_vec(&blob, i * 39, i * 39 + 39);
        out.push(chunk);
        i += 1;
    }
    Ok(out)
}

/// Removes from the mempool every record whose digest is among `ids`, as one
/// read-modify-write.
pub fn evict(store: &mut KvStore, ids: &Vec<Vec<u8>>) -> (r: Result<(), ConsensusError>)
    ensures
        ({
            let pre = kv_contents(*old(store));
            let blob = mempool_blob(pre);
            let dst = pre.insert(mempool_store_key(), evict_blob(blob, id_set(ids@)));
            match r {
                Ok(_) => blob.len() % 39 == 0 && kv_contents(*final(store)) == dst,
                Err(e) => {
                    &&& e == ConsensusError::MalformedMempoolState || e
                        == ConsensusError::StorageFailure
                    &&& e == ConsensusError::MalformedMempoolState ==> (blob.len() % 39 != 0
                        && kv_contents(*final(store)) == pre)
                    &&& e == ConsensusError::StorageFailure ==> (kv_contents(*final(store)) == pre
                        || (blob.len() % 39 == 0 && kv_contents(*final(store)) == dst))
                },
            }
        }),
{
    let ghost pre = kv_contents(*old(store));
    let mkey = sentinel_key(CLASS_MEMPOOL);
    let blob = match store.get(&mkey) {
        Err(e) => {
            return Err(e);
        },
        Ok(Some(b)) => b,
        Ok(None) => Vec::new(),
    };
    if blob.len() % 39 != 0 {
        return Err(ConsensusError::MalformedMempoolState);
    }
    let ghost idset = id_set(ids@);
    let mut kept: Vec<u8> = Vec::new();
    let mut off: usize = 0;
    proof {
        assert(blob@.skip(0) =~= blob@);
        assert(kept@ + evict_blob(blob@.skip(0), idset) =~= evict_blob(blob@, idset));
    }
    while off < blob.len()
        invariant
            off <= blob@.len(),
            blob@.len() % 39 == 0,
            off % 39 == 0,
            idset == id_set(ids@),
            evict_blob(blob@, idset) == kept@ + evict_blob(blob@.skip(off as int), idset),
        decreases blob.len() - off,
    {
        proof {
            assert(blob@.len() - off >= 39) by (nonlinear_arith)
                requires
                    off < blob@.len(),
                    off % 39 == 0,
                    blob@.len() % 39 == 0,
            ;
        }
        let chunk = subrange_vec(&blob, off, off + 39);
        let id = sha256_digest(&chunk);
        proof {
            let rest = blob@.skip(off as int);
            assert(chunk@ =~= rest.subrange(0, 39));
            assert(rest.skip(39) =~= blob@.skip(off + 39));
        }
        if !ids_contain(ids, &id) {
            proof {
                assert((kept@ + chunk@) + evict_blob(blob@.skip(off + 39), idset) =~= kept@ + (
                chunk@ + evict_blob(blob@.skip(off + 39), idset)));
            }
            kept = concat_bytes(&kept, &chunk);
        }
        off += 39;
    }
    proof {
        assert(blob@.skip(blob@.len() as int) =~= Seq::<u8>::empty());
        assert(kept@ + Seq::<u8>::empty() =~= kept@);
    }
    let deletes: Vec<Vec<u8>> = Vec::new();
    let mut puts: Vec<(Vec<u8>, Vec<u8>)> = Vec::new();
    puts.push((mkey, kept));
    proof {
        assert(delete_keys(deletes@) =~= Set::<Seq<u8>>::empty());
        assert(pre.remove_keys(delete_keys(deletes@)) =~= pre);
        assert(puts_map(puts@.drop_last()) =~= Map::<Seq<u8>, Seq<u8>>::empty());
        assert(apply_writes(pre, deletes@, puts@) =~= pre.insert(
            mempool_store_key(),
            evict_blob(mempool_blob(pre), idset),
        ));
    }
    match store.write(&deletes, &puts) {
        Ok(_) => Ok(()),
        Err(e) => Err(e),
    }
}

} // verus!
