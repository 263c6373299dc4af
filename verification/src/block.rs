//! The block validator and the chain store operations.
//!
//! A block is a 70-byte header (2-byte version, 32-byte previous-block id,
//! 32-byte transaction root, 4-byte nonce), a 33-byte coinbase destination
//! key, and back-to-back serialized transactions. Acceptance checks the size
//! cap, the version, the proof-of-work gate, chain continuity and the
//! transaction root, then validates every transaction; on success the new
//! output records, the coinbase record, the block and the new tip are
//! committed as one atomic write, and the records the block spent are
//! deleted in that same write.

use vstd::prelude::*;
use crate::bytes::{bytes_eq, subrange_vec, concat_bytes};
use crate::crypto::{check_difficulty, digest_of, sha256_digest, spec_difficulty_ok, SignatureVerifier};
use crate::errors::ConsensusError;
use crate::records::{
    block_store_key,
    cand_id,
    cand_seq,
    class_key,
    encode_record,
    sentinel_key,
    spec_record_bytes,
    spec_tip,
    tip_store_key,
    utxo_store_key,
    version_bytes,
    zero_tip,
    OutputCandidate,
    CLASS_BLOCK,
    CLASS_TIP,
    CLASS_UTXO,
    COINBASE_REWARD,
};
use crate::store::{apply_writes, delete_keys, kv_contents, puts_map, KvStore};
use crate::tx::{id_set, scan_inputs, scan_outputs, spec_verify_tx, verify_tx};

verus! {

/// The byte cap on an admissible block.
pub const MAX_BLOCK_BYTES: usize = 1_000_000;

/// Validates the transactions of `payload` back to back from `pos`,
/// threading the set of spent ids and accumulating candidate outputs.
pub open spec fn scan_txs<S: SignatureVerifier>(
    v: S,
    store: Map<Seq<u8>, Seq<u8>>,
    payload: Seq<u8>,
    pos: int,
    spent: Set<Seq<u8>>,
    cands: Seq<(u64, Seq<u8>)>,
) -> Result<(Set<Seq<u8>>, Seq<(u64, Seq<u8>)>), ConsensusError>
    decreases payload.len() - pos,
{
    if pos >= payload.len() {
        Ok((spent, cands))
    } else {
        match spec_verify_tx(v, store, payload.skip(pos), spent) {
            Err(e) => Err(e),
            Ok((consumed, spent2, cands2)) => {
                if consumed <= 0 || pos + consumed > payload.len() {
                    Err(ConsensusError::UnsupportedTxVersion)
                } else {
                    scan_txs(v, store, payload, pos + consumed, spent2, cands + cands2)
                }
            },
        }
    }
}

/// What verifying a block decides: the ids its transactions spend and the
/// candidate outputs they produce, or the first failing check's error.
pub open spec fn spec_verify_block<S: SignatureVerifier>(
    v: S,
    store: Map<Seq<u8>, Seq<u8>>,
    difficulty: nat,
    block: Seq<u8>,
) -> Result<(Set<Seq<u8>>, Seq<(u64, Seq<u8>)>), ConsensusError> {
    if block.len() > 1_000_000 {
        Err(ConsensusError::OversizedBlock)
    } else if block.len() < 70 {
        Err(ConsensusError::UnsupportedVersion)
    } else if block.subrange(0, 2) != version_bytes() {
        Err(ConsensusError::UnsupportedVersion)
    } else if !spec_difficulty_ok(block.subrange(0, 70), difficulty) {
        Err(ConsensusError::InvalidNonce)
    } else if block.subrange(2, 34) != spec_tip(store) {
        Err(ConsensusError::PrevHashMismatch)
    } else if block.subrange(34, 66) != digest_of(block.skip(70)) {
        Err(ConsensusError::TxRootMismatch)
    } else if block.len() < 103 {
        Err(ConsensusError::UnsupportedVersion)
    } else {
        scan_txs(v, store, block.skip(70), 33, Set::empty(), Seq::empty())
    }
}

/// The pairs of a put vector, as plain byte strings.
pub open spec fn entries_view(s: Seq<(Vec<u8>, Vec<u8>)>) -> Seq<(Seq<u8>, Seq<u8>)> {
    s.map_values(|p: (Vec<u8>, Vec<u8>)| (p.0@, p.1@))
}

/// The map a sequence of entries builds; a later entry overrides an earlier
/// one with the same key.
pub open spec fn entry_map(entries: Seq<(Seq<u8>, Seq<u8>)>) -> Map<Seq<u8>, Seq<u8>>
    decreases entries.len(),
{
    if entries.len() == 0 {
        Map::empty()
    } else {
        entry_map(entries.drop_last()).insert(entries.last().0, entries.last().1)
    }
}

pub proof fn lemma_puts_map_is_entry_map(puts: Seq<(Vec<u8>, Vec<u8>)>)
    ensures
        puts_map(puts) == entry_map(entries_view(puts)),
    decreases puts.len(),
{
    if puts.len() == 0 {
        assert(entries_view(puts) =~= Seq::<(Seq<u8>, Seq<u8>)>::empty());
        assert(puts_map(puts) =~= entry_map(entries_view(puts)));
    } else {
        lemma_puts_map_is_entry_map(puts.drop_last());
        assert(entries_view(puts.drop_last()) =~= entries_view(puts).drop_last());
        assert(entries_view(puts).last() == (puts.last().0@, puts.last().1@));
    }
}

/// The store entries a block's candidate outputs become: each record keyed
/// by its derived id, in block-wide index order.
pub open spec fn cand_entries(cands: Seq<(u64, Seq<u8>)>, header: Seq<u8>) -> Seq<
    (Seq<u8>, Seq<u8>),
>
    decreases cands.len(),
{
    if cands.len() == 0 {
        Seq::empty()
    } else {
        cand_entries(cands.drop_last(), header).push(
            (
                utxo_store_key(cand_id(cands.last(), header, cands.len() - 1)),
                spec_record_bytes(cands.last().0, cands.last().1),
            ),
        )
    }
}

/// The store keys of a set of spent output ids.
pub open spec fn spent_keys(spent: Set<Seq<u8>>) -> Set<Seq<u8>> {
    Set::new(|k: Seq<u8>| exists|id: Seq<u8>| spent.contains(id) && k == utxo_store_key(id))
}

/// What accepting a block leaves in the store: the spent records deleted,
/// then the new output records, the coinbase record, the block under its id,
/// and the tip pointer, all from one atomic write.
pub open spec fn spec_committed(
    store: Map<Seq<u8>, Seq<u8>>,
    block: Seq<u8>,
    spent: Set<Seq<u8>>,
    cands: Seq<(u64, Seq<u8>)>,
) -> Map<Seq<u8>, Seq<u8>> {
    let header = block.subrange(0, 70);
    let dest = block.subrange(70, 103);
    let cb = spec_record_bytes(COINBASE_REWARD, dest);
    let entries = cand_entries(cands, header).push((utxo_store_key(digest_of(cb)), cb)).push(
        (block_store_key(digest_of(block)), block),
    ).push((tip_store_key(), digest_of(block)));
    store.remove_keys(spent_keys(spent)).union_prefer_right(entry_map(entries))
}

/// The current chain tip: the stored pointer, or the all-zero id on an
/// empty chain.
pub fn current_tip_id(store: &KvStore) -> (r: Result<Vec<u8>, ConsensusError>)
    ensures
        match r {
            Ok(v) => v@ == spec_tip(kv_contents(*store)),
            Err(e) => e == ConsensusError::StorageFailure,
        },
{
    let key = sentinel_key(CLASS_TIP);
    match store.get(&key) {
        Err(e) => Err(e),
        Ok(Some(v)) => Ok(v),
        Ok(None) => {
            let mut z: Vec<u8> = Vec::new();
            let mut i: usize = 0;
            while i < 32
                invariant
                    i <= 32,
                    z@.len() == i,
                    forall|j: int| 0 <= j < i ==> z@[j] == 0u8,
                decreases 32 - i,
            {
                z.push(0);
                i += 1;
            }
            assert(z@ =~= zero_tip());
            Ok(z)
        },
    }
}

/// The stored output record with derived id `id`, if any.
pub fn get_utxo_record(store: &KvStore, id: &Vec<u8>) -> (r: Result<
    Option<Vec<u8>>,
    ConsensusError,
>)
    ensures
        match r {
            Ok(o) => match o {
                Some(v) => kv_contents(*store).dom().contains(utxo_store_key(id@)) && v@
                    == kv_contents(*store)[utxo_store_key(id@)],
                None => !kv_contents(*store).dom().contains(utxo_store_key(id@)),
            },
            Err(e) => e == ConsensusError::StorageFailure,
        },
{
    let key = class_key(CLASS_UTXO, id);
    store.get(&key)
}

/// The stored block with id `id`, if any.
pub fn get_block(store: &KvStore, id: &Vec<u8>) -> (r: Result<Option<Vec<u8>>, ConsensusError>)
    ensures
        match r {
            Ok(o) => match o {
                Some(v) => kv_contents(*store).dom().contains(block_store_key(id@)) && v@
                    == kv_contents(*store)[block_store_key(id@)],
                None => !kv_contents(*store).dom().contains(block_store_key(id@)),
            },
            Err(e) => e == ConsensusError::StorageFailure,
        },
{
    let key = class_key(CLASS_BLOCK, id);
    store.get(&key)
}

/// Builds the put entries of a block's candidate outputs, keyed by their
/// derived ids.
fn build_cand_entries(cands: &Vec<OutputCandidate>, header: &Vec<u8>) -> (r: Vec<
    (Vec<u8>, Vec<u8>),
>)
    requires
        forall|j: int| 0 <= j < cands@.len() ==> cands@[j].wf(),
    ensures
        entries_view(r@) == cand_entries(cand_seq(cands@), header@),
{
    let mut puts: Vec<(Vec<u8>, Vec<u8>)> = Vec::new();
    let mut k: usize = 0;
    proof {
        assert(entries_view(puts@) =~= cand_entries(
            cand_seq(cands@).subrange(0, 0),
            header@,
        ));
    }
    while k < cands.len()
        invariant
            k <= cands@.len(),
            forall|j: int| 0 <= j < cands@.len() ==> cands@[j].wf(),
            entries_view(puts@) == cand_entries(cand_seq(cands@).subrange(0, k as int), header@),
        decreases cands.len() - k,
    {
        let rec = encode_record(cands[k].value, &cands[k].owner);
        let mut buf = concat_bytes(&rec, header);
        buf.push(((k / 256) % 256) as u8);
        buf.push((k % 256) as u8);
        let id = sha256_digest(&buf);
        let key = class_key(CLASS_UTXO, &id);
        proof {
            let cs = cand_seq(cands@);
            assert(buf@ =~= spec_record_bytes(cs[k as int].0, cs[k as int].1) + header@
                + crate::records::cand_index_bytes(k as int));
            assert(id@ == cand_id(cs[k as int], header@, k as int));
            assert(cs.subrange(0, k + 1 as int).drop_last() =~= cs.subrange(0, k as int));
            assert(cs.subrange(0, k + 1 as int).last() == cs[k as int]);
            assert(entries_view(puts@.push((key, rec))) =~= cand_entries(
                cs.subrange(0, k + 1 as int),
                header@,
            ));
        }
        puts.push((key, rec));
        k += 1;
    }
    proof {
        assert(cand_seq(cands@).subrange(0, cands@.len() as int) =~= cand_seq(cands@));
    }
    puts
}

/// Verifies a block against the current store and, when every check passes,
/// commits its effects atomically. Checks run in order: size cap, header
/// presence and version, difficulty, chain continuity, transaction root,
/// then every transaction; the first failure aborts with its error and the
/// store unchanged.
pub fn verify_new_block<S: SignatureVerifier>(
    store: &mut KvStore,
    verifier: &S,
    difficulty: usize,
    block: Vec<u8>,
) -> (r: Result<bool, ConsensusError>)
    requires
        difficulty <= 32,
    ensures
        ({
            let pre = kv_contents(*old(store));
            let res = spec_verify_block(*verifier, pre, difficulty as nat, block@);
            match r {
                Ok(b) => b && (res matches Ok(p) && kv_contents(*final(store)) == spec_committed(
                    pre,
                    block@,
                    p.0,
                    p.1,
                )),
                Err(e) => if e == ConsensusError::StorageFailure {
                    // a storage failure can only arise once every check that
                    // precedes the first store access has passed
                    &&& (kv_contents(*final(store)) == pre || (res matches Ok(p) && kv_contents(
                        *final(store),
                    ) == spec_committed(pre, block@, p.0, p.1)))
                    &&& block@.len() <= 1_000_000
                    &&& 70 <= block@.len()
                    &&& block@.subrange(0, 2) == version_bytes()
                    &&& spec_difficulty_ok(block@.subrange(0, 70), difficulty as nat)
                } else {
                    res == Err::<(Set<Seq<u8>>, Seq<(u64, Seq<u8>)>), ConsensusError>(e)
                        && kv_contents(*final(store)) == pre
                },
            }
        }),
{
    let ghost pre = kv_contents(*old(store));
    if block.len() > MAX_BLOCK_BYTES {
        return Err(ConsensusError::OversizedBlock);
    }
    if block.len() < 70 {
        return Err(ConsensusError::UnsupportedVersion);
    }
    if !(block[0] == 0 && block[1] == 1) {
        proof {
            assert(block@.subrange(0, 2)[0] == block@[0] && block@.subrange(0, 2)[1] == block@[1]);
        }
        return Err(ConsensusError::UnsupportedVersion);
    }
    proof {
        assert(block@.subrange(0, 2) =~= version_bytes());
    }
    let header = subrange_vec(&block, 0, 70);
    if !check_difficulty(&header, difficulty) {
        return Err(ConsensusError::InvalidNonce);
    }
    let tip = match current_tip_id(store) {
        Ok(t) => t,
        Err(e) => {
            return Err(e);
        },
    };
    let prev = subrange_vec(&block, 2, 34);
    if !bytes_eq(&prev, &tip) {
        return Err(ConsensusError::PrevHashMismatch);
    }
    let payload = subrange_vec(&block, 70, block.len());
    proof {
        assert(payload@ =~= block@.skip(70));
    }
    let root = sha256_digest(&payload);
    let tx_root = subrange_vec(&block, 34, 66);
    if !bytes_eq(&tx_root, &root) {
        return Err(ConsensusError::TxRootMismatch);
    }
    if block.len() < 103 {
        return Err(ConsensusError::UnsupportedVersion);
    }
    let mut pc: usize = 33;
    let mut spent: Vec<Vec<u8>> = Vec::new();
    let mut cands: Vec<OutputCandidate> = Vec::new();
    proof {
        assert(id_set(spent@) =~= Set::<Seq<u8>>::empty());
        assert(cand_seq(cands@) =~= Seq::<(u64, Seq<u8>)>::empty());
    }
    while pc < payload.len()
        invariant
            33 <= pc <= payload@.len(),
            payload@ == block@.skip(70),
            pre == kv_contents(*store),
            pre == kv_contents(*old(store)),
            block@.len() <= 1_000_000,
            70 <= block@.len(),
            block@.subrange(0, 2) == version_bytes(),
            spec_difficulty_ok(block@.subrange(0, 70), difficulty as nat),
            spec_verify_block(*verifier, pre, difficulty as nat, block@) == scan_txs(
                *verifier,
                pre,
                block@.skip(70),
                33,
                Set::empty(),
                Seq::empty(),
            ),
            forall|j: int| 0 <= j < cands@.len() ==> cands@[j].wf(),
            scan_txs(*verifier, pre, payload@, 33, Set::empty(), Seq::empty()) == scan_txs(
                *verifier,
                pre,
                payload@,
                pc as int,
                id_set(spent@),
                cand_seq(cands@),
            ),
        decreases payload@.len() - pc,
    {
        let tx = subrange_vec(&payload, pc, payload.len());
        proof {
            assert(tx@ =~= payload@.skip(pc as int));
        }
        match verify_tx(store, verifier, &tx, true, &mut spent) {
            Err(e) => {
                return Err(e);
            },
            Ok(out) => {
                let mut fresh = out.candidates;
                let consumed = out.consumed;
                proof {
                    assert(cand_seq(cands@ + fresh@) =~= cand_seq(cands@) + cand_seq(fresh@));
                }
                cands.append(&mut fresh);
                pc += consumed;
            },
        }
    }
    let mut deletes: Vec<Vec<u8>> = Vec::new();
    let mut di: usize = 0;
    while di < spent.len()
        invariant
            di <= spent@.len(),
            deletes@.len() == di,
            forall|j: int| 0 <= j < di ==> deletes@[j]@ == utxo_store_key(spent@[j]@),
        decreases spent.len() - di,
    {
        let k = class_key(CLASS_UTXO, &spent[di]);
        deletes.push(k);
        di += 1;
    }
    proof {
        let dk = delete_keys(deletes@);
        let sk = spent_keys(id_set(spent@));
        assert forall|k: Seq<u8>| dk.contains(k) implies sk.contains(k) by {
            let i = choose|i: int| 0 <= i < deletes@.len() && deletes@[i]@ == k;
            assert(id_set(spent@).contains(spent@[i]@));
        }
        assert forall|k: Seq<u8>| sk.contains(k) implies dk.contains(k) by {
            let id = choose|id: Seq<u8>| id_set(spent@).contains(id) && k == utxo_store_key(id);
            let i = choose|i: int| 0 <= i < spent@.len() && spent@[i]@ == id;
            assert(deletes@[i]@ == k);
        }
        assert(dk =~= sk);
    }
    let mut puts = build_cand_entries(&cands, &header);
    let dest = subrange_vec(&block, 70, 103);
    let cb = encode_record(COINBASE_REWARD, &dest);
    let cb_id = sha256_digest(&cb);
    let cb_key = class_key(CLASS_UTXO, &cb_id);
    let ghost entries1 = entries_view(puts@).push((utxo_store_key(digest_of(cb@)), cb@));
    proof {
        assert(entries_view(puts@.push((cb_key, cb))) =~= entries1);
    }
    puts.push((cb_key, cb));
    let block_id = sha256_digest(&block);
    let block_key_v = class_key(CLASS_BLOCK, &block_id);
    let ghost entries2 = entries1.push((block_store_key(digest_of(block@)), block@));
    proof {
        assert(entries_view(puts@.push((block_key_v, block))) =~= entries2);
    }
    let ghost block_view = block@;
    puts.push((block_key_v, block));
    let tip_key_v = sentinel_key(CLASS_TIP);
    let ghost entries3 = entries2.push((tip_store_key(), digest_of(block_view)));
    proof {
        assert(entries_view(puts@.push((tip_key_v, block_id))) =~= entries3);
    }
    puts.push((tip_key_v, block_id));
    proof {
        lemma_puts_map_is_entry_map(puts@);
        assert(apply_writes(pre, deletes@, puts@) =~= spec_committed(
            pre,
            block_view,
            id_set(spent@),
            cand_seq(cands@),
        ));
    }
    match store.write(&deletes, &puts) {
        Ok(_) => Ok(true),
        Err(e) => Err(e),
    }
}

/// Stores an already-verified block under its id and points the chain tip
/// at it, in one atomic write.
pub fn insert_block(store: &mut KvStore, block: Vec<u8>) -> (r: Result<(), ConsensusError>)
    ensures
        ({
            let dst = kv_contents(*old(store)).insert(
                block_store_key(digest_of(block@)),
                block@,
            ).insert(tip_store_key(), digest_of(block@));
            match r {
                Ok(_) => kv_contents(*final(store)) == dst,
                Err(e) => e == ConsensusError::StorageFailure && (kv_contents(*final(store))
                    == kv_contents(*old(store)) || kv_contents(*final(store)) == dst),
            }
        }),
{
    let ghost pre = kv_contents(*old(store));
    let block_id = sha256_digest(&block);
    let block_key_v = class_key(CLASS_BLOCK, &block_id);
    let tip_key_v = sentinel_key(CLASS_TIP);
    let ghost block_view = block@;
    let mut puts: Vec<(Vec<u8>, Vec<u8>)> = Vec::new();
    puts.push((block_key_v, block));
    puts.push((tip_key_v, block_id));
    let deletes: Vec<Vec<u8>> = Vec::new();
    proof {
        assert(delete_keys(deletes@) =~= Set::<Seq<u8>>::empty());
        assert(pre.remove_keys(delete_keys(deletes@)) =~= pre);
        let s = puts@;
        assert(s.len() == 2);
        assert(s.drop_last().last() == s[0] && s.last() == s[1]);
        assert(s.drop_last().drop_last().len() == 0);
        assert(puts_map(s.drop_last().drop_last()) == Map::<Seq<u8>, Seq<u8>>::empty());
        assert(puts_map(s.drop_last()) == puts_map(s.drop_last().drop_last()).insert(
            s[0].0@,
            s[0].1@,
        ));
        assert(puts_map(s) == puts_map(s.drop_last()).insert(s[1].0@, s[1].1@));
        assert(s[0].0@ =~= block_store_key(digest_of(block_view)));
        assert(s[1].0@ =~= tip_store_key());
        assert(s[0].1@ =~= block_view);
        assert(s[1].1@ =~= digest_of(block_view));
        assert(apply_writes(pre, deletes@, puts@) =~= pre.insert(
            block_store_key(digest_of(block_view)),
            block_view,
        ).insert(tip_store_key(), digest_of(block_view)));
    }
    match store.write(&deletes, &puts) {
        Ok(_) => Ok(()),
        Err(e) => Err(e),
    }
}

/// Writes a block's candidate output records into the unspent-output set,
/// each under its derived id, in one atomic write.
pub fn add_to_utxo_set(store: &mut KvStore, utxos: &Vec<OutputCandidate>, header: &Vec<u8>) -> (r:
    Result<(), ConsensusError>)
    requires
        forall|j: int| 0 <= j < utxos@.len() ==> utxos@[j].wf(),
    ensures
        ({
            let dst = kv_contents(*old(store)).union_prefer_right(
                entry_map(cand_entries(cand_seq(utxos@), header@)),
            );
            match r {
                Ok(_) => kv_contents(*final(store)) == dst,
                Err(e) => e == ConsensusError::StorageFailure && (kv_contents(*final(store))
                    == kv_contents(*old(store)) || kv_contents(*final(store)) == dst),
            }
        }),
{
    let ghost pre = kv_contents(*old(store));
    let puts = build_cand_entries(utxos, header);
    let deletes: Vec<Vec<u8>> = Vec::new();
    proof {
        assert(delete_keys(deletes@) =~= Set::<Seq<u8>>::empty());
        lemma_puts_map_is_entry_map(puts@);
        assert(apply_writes(pre, deletes@, puts@) =~= pre.union_prefer_right(
            entry_map(cand_entries(cand_seq(utxos@), header@)),
        ));
    }
    match store.write(&deletes, &puts) {
        Ok(_) => Ok(()),
        Err(e) => Err(e),
    }
}

/// Writes the coinbase record of a block, with the fixed reward, payable to
/// `coinbase_dest`, keyed by the record's digest.
pub fn add_coinbase_to_utxo_set(store: &mut KvStore, coinbase_dest: Vec<u8>) -> (r: Result<
    (),
    ConsensusError,
>)
    requires
        coinbase_dest@.len() == 33,
    ensures
        ({
            let cb = spec_record_bytes(COINBASE_REWARD, coinbase_dest@);
            let dst = kv_contents(*old(store)).insert(utxo_store_key(digest_of(cb)), cb);
            match r {
                Ok(_) => kv_contents(*final(store)) == dst,
                Err(e) => e == ConsensusError::StorageFailure && (kv_contents(*final(store))
                    == kv_contents(*old(store)) || kv_contents(*final(store)) == dst),
            }
        }),
{
    let ghost pre = kv_contents(*old(store));
    let cb = encode_record(COINBASE_REWARD, &coinbase_dest);
    let cb_id = sha256_digest(&cb);
    let cb_key = class_key(CLASS_UTXO, &cb_id);
    let ghost cbs = cb@;
    let mut puts: Vec<(Vec<u8>, Vec<u8>)> = Vec::new();
    puts.push((cb_key, cb));
    let deletes: Vec<Vec<u8>> = Vec::new();
    proof {
        assert(delete_keys(deletes@) =~= Set::<Seq<u8>>::empty());
        assert(puts_map(puts@.drop_last()) =~= Map::<Seq<u8>, Seq<u8>>::empty());
        assert(apply_writes(pre, deletes@, puts@) =~= pre.insert(
            utxo_store_key(digest_of(cbs)),
            cbs,
        ));
    }
    match store.write(&deletes, &puts) {
        Ok(_) => Ok(()),
        Err(e) => Err(e),
    }
}

/// The genesis block: the supported version, an all-zero previous id,
/// transaction root and nonce, and an all-zero coinbase destination.
pub open spec fn genesis_bytes() -> Seq<u8> {
    version_bytes() + Seq::new(101, |i: int| 0u8)
}

/// Builds the genesis block, stores it and points the tip at it.
pub fn construct_genesis(store: &mut KvStore) -> (r: Result<Vec<u8>, ConsensusError>)
    ensures
        ({
            let dst = kv_contents(*old(store)).insert(
                block_store_key(digest_of(genesis_bytes())),
                genesis_bytes(),
            ).insert(tip_store_key(), digest_of(genesis_bytes()));
            match r {
                Ok(g) => g@ == genesis_bytes() && kv_contents(*final(store)) == dst,
                Err(e) => e == ConsensusError::StorageFailure && (kv_contents(*final(store))
                    == kv_contents(*old(store)) || kv_contents(*final(store)) == dst),
            }
        }),
{
    let mut g: Vec<u8> = Vec::new();
    g.push(0);
    g.push(1);
    let mut i: usize = 0;
    while i < 101
        invariant
            i <= 101,
            g@.len() == 2 + i,
            g@[0] == 0u8 && g@[1] == 1u8,
            forall|j: int| 2 <= j < g@.len() ==> g@[j] == 0u8,
        decreases 101 - i,
    {
        g.push(0);
        i += 1;
    }
    proof {
        assert(g@ =~= genesis_bytes());
    }
    let copy = subrange_vec(&g, 0, g.len());
    proof {
        assert(copy@ =~= genesis_bytes());
    }
    match insert_block(store, copy) {
        Ok(_) => Ok(g),
        Err(e) => Err(e),
    }
}

/// Initializes an empty chain by constructing and storing the genesis block.
pub fn init_chain(store: &mut KvStore) -> (r: Result<(), ConsensusError>)
    ensures
        ({
            let dst = kv_contents(*old(store)).insert(
                block_store_key(digest_of(genesis_bytes())),
                genesis_bytes(),
            ).insert(tip_store_key(), digest_of(genesis_bytes()));
            match r {
                Ok(_) => kv_contents(*final(store)) == dst,
                Err(e) => e == ConsensusError::StorageFailure && (kv_contents(*final(store))
                    == kv_contents(*old(store)) || kv_contents(*final(store)) == dst),
            }
        }),
{
    match construct_genesis(store) {
        Ok(_) => Ok(()),
        Err(e) => Err(e),
    }
}

} // verus!
