//! The persistent key-value store behind the unspent-output set, the chain
//! store, the chain tip and the mempool.
//!
//! One content-addressed key space holds all four record classes; keys are
//! namespaced by a one-byte class prefix so the classes cannot collide. The
//! store is an explicitly owned handle, injected into every operation, and a
//! whole logical operation is applied as one atomic write transaction.
//!
//! The store is rkv's safe-mode backend. What a handle holds is named by the
//! uninterpreted map [`kv_contents`]; the trusted wrappers below state, over
//! that name, what rkv's source shows of each call.

use vstd::prelude::*;
use rkv::backend::BackendEnvironmentBuilder;
use crate::errors::ConsensusError;

verus! {

/// rkv's environment wrapper, declared opaquely so a handle can own one.
#[verifier::external_type_specification]
#[verifier::external_body]
#[verifier::reject_recursive_types(E)]
pub struct ExRkv<E>(rkv::Rkv<E>);

/// rkv's single-value database handle, declared opaquely.
#[verifier::external_type_specification]
#[verifier::external_body]
#[verifier::reject_recursive_types(D)]
pub struct ExSingleStore<D>(rkv::SingleStore<D>);

/// rkv's safe-mode backend environment, declared opaquely.
#[verifier::external_type_specification]
#[verifier::external_body]
pub struct ExSafeModeEnvironment(rkv::backend::SafeModeEnvironment);

/// rkv's safe-mode backend database id, declared opaquely.
#[verifier::external_type_specification]
#[verifier::external_body]
pub struct ExSafeModeDatabase(rkv::backend::SafeModeDatabase);

/// An owned handle on one persistent key space.
pub struct KvStore {
    env: rkv::Rkv<rkv::backend::SafeModeEnvironment>,
    store: rkv::SingleStore<rkv::backend::SafeModeDatabase>,
}

/// The byte-string contents of a store handle: every key the store holds,
/// mapped to the blob stored under it.
pub uninterp spec fn kv_contents(s: KvStore) -> Map<Seq<u8>, Seq<u8>>;

/// The map that a sequence of put pairs builds; a later pair overrides an
/// earlier one with the same key.
pub open spec fn puts_map(puts: Seq<(Vec<u8>, Vec<u8>)>) -> Map<Seq<u8>, Seq<u8>>
    decreases puts.len(),
{
    if puts.len() == 0 {
        Map::empty()
    } else {
        puts_map(puts.drop_last()).insert(puts.last().0@, puts.last().1@)
    }
}

/// The keys a sequence of delete requests names.
pub open spec fn delete_keys(deletes: Seq<Vec<u8>>) -> Set<Seq<u8>> {
    Set::new(|k: Seq<u8>| exists|i: int| 0 <= i < deletes.len() && deletes[i]@ == k)
}

/// What one write transaction leaves in the store: the deletes applied first,
/// then the puts in order.
pub open spec fn apply_writes(
    m: Map<Seq<u8>, Seq<u8>>,
    deletes: Seq<Vec<u8>>,
    puts: Seq<(Vec<u8>, Vec<u8>)>,
) -> Map<Seq<u8>, Seq<u8>> {
    m.remove_keys(delete_keys(deletes)).union_prefer_right(puts_map(puts))
}

impl KvStore {
    /// Relies on rkv::Rkv::from_builder with the safe-mode backend: it opens
    /// (creating if needed) the environment directory and returns a handle,
    /// or fails.
    #[verifier::external_body]
    fn open_env(path: &str) -> (r: Result<KvStore, ConsensusError>) {
        let mut builder = rkv::backend::SafeMode::new();
        builder.set_make_dir_if_needed(true);
        let env = rkv::Rkv::from_builder(std::path::Path::new(path), builder)
            .map_err(|_| ConsensusError::StorageFailure)?;
        let store = env
            .open_single("store", rkv::StoreOptions::create())
            .map_err(|_| ConsensusError::StorageFailure)?;
        Ok(KvStore { env, store })
    }

    /// Opens the store rooted at `path`, creating it if absent. The handle's
    /// contents are whatever the directory already held.
    pub fn open(path: &str) -> (r: Result<KvStore, ConsensusError>) {
        KvStore::open_env(path)
    }

    /// Relies on rkv::SingleStore::get in a read transaction: it returns the
    /// blob stored under the key, or nothing when the key is absent. A
    /// non-blob value under the key is reported as a storage failure.
    #[verifier::external_body]
    pub(crate) fn get(&self, key: &Vec<u8>) -> (r: Result<Option<Vec<u8>>, ConsensusError>)
        ensures
            match r {
                Ok(o) => match o {
                    Some(v) => kv_contents(*self).dom().contains(key@) && v@ == kv_contents(
                        *self,
                    )[key@],
                    None => !kv_contents(*self).dom().contains(key@),
                },
                Err(e) => e == ConsensusError::StorageFailure,
            },
    {
        let reader = self.env.read().map_err(|_| ConsensusError::StorageFailure)?;
        match self.store.get(&reader, key) {
            Ok(Some(rkv::Value::Blob(b))) => Ok(Some(b.to_vec())),
            Ok(Some(_)) => Err(ConsensusError::StorageFailure),
            Ok(None) => Ok(None),
            Err(_) => Err(ConsensusError::StorageFailure),
        }
    }

    /// Relies on rkv's write transactions: puts and deletes are buffered in
    /// the transaction's snapshot and take effect all together at commit, or
    /// not at all; a commit that fails while writing the file may still have
    /// installed the new snapshot, so a failed write is either fully applied
    /// or not applied. Deleting an absent key is a no-op.
    #[verifier::external_body]
    pub(crate) fn write(&mut self, deletes: &Vec<Vec<u8>>, puts: &Vec<(Vec<u8>, Vec<u8>)>) -> (r:
        Result<(), ConsensusError>)
        ensures
            match r {
                Ok(_) => kv_contents(*final(self)) == apply_writes(
                    kv_contents(*old(self)),
                    deletes@,
                    puts@,
                ),
                Err(e) => e == ConsensusError::StorageFailure && (kv_contents(*final(self))
                    == kv_contents(*old(self)) || kv_contents(*final(self)) == apply_writes(
                    kv_contents(*old(self)),
                    deletes@,
                    puts@,
                )),
            },
    {
        let mut writer = self.env.write().map_err(|_| ConsensusError::StorageFailure)?;
        for k in deletes.iter() {
            match self.store.delete(&mut writer, k) {
                Ok(()) | Err(rkv::StoreError::KeyValuePairNotFound) => {}
                Err(_) => return Err(ConsensusError::StorageFailure),
            }
        }
        for (k, v) in puts.iter() {
            self.store.put(&mut writer, k, &rkv::Value::Blob(v)).map_err(
                |_| ConsensusError::StorageFailure,
            )?;
        }
        writer.commit().map_err(|_| ConsensusError::StorageFailure)
    }
}

} // verus!
