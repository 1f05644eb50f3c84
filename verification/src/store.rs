//! The versioned store: the one current snapshot plus a monotonically
//! increasing version counter. Readers take the (snapshot, version) pair
//! atomically from `&self`; the watcher is the only writer after startup.
//! The blocking long-poll loop around `wait_for_change_step` lives with
//! the process's synchronisation primitive; the decisions it takes are
//! the verified steps here.

use vstd::prelude::*;

use crate::note::{Note, ScanError};

verus! {

/// The mathematical state of a `VersionedStore`.
pub struct StoreModel {
    pub snapshot: Seq<Note>,
    pub version: int,
}

/// What one publish does to the store's state.
pub open spec fn publish_model(m: StoreModel, notes: Seq<Note>) -> StoreModel {
    StoreModel { snapshot: notes, version: m.version + 1 }
}

/// The store's state after a run of publishes, one per batch.
pub open spec fn store_after_publishes(m: StoreModel, batches: Seq<Seq<Note>>) -> StoreModel
    decreases batches.len(),
{
    if batches.len() == 0 {
        m
    } else {
        store_after_publishes(publish_model(m, batches[0]), batches.drop_first())
    }
}

/// Publishing is monotonic: a run of N publishes takes the version from
/// `initial` to `initial + N`, and the k-th publish of the run returns
/// version `initial + k`.
pub proof fn lemma_publish_monotonic(m: StoreModel, batches: Seq<Seq<Note>>)
    ensures
        store_after_publishes(m, batches).version == m.version + batches.len(),
        forall|k: int|
            0 <= k < batches.len() ==> store_after_publishes(
                m,
                #[trigger] batches.take(k + 1),
            ).version == m.version + k + 1,
    decreases batches.len(),
{
    if batches.len() > 0 {
        let m1 = publish_model(m, batches[0]);
        lemma_publish_monotonic(m1, batches.drop_first());
        assert forall|k: int| 0 <= k < batches.len() implies store_after_publishes(
            m,
            #[trigger] batches.take(k + 1),
        ).version == m.version + k + 1 by {
            let pre = batches.take(k + 1);
            assert(pre.len() == k + 1);
            assert(pre[0] == batches[0]);
            assert(pre.drop_first() =~= batches.drop_first().take(k));
            assert(store_after_publishes(m, pre) == store_after_publishes(m1, pre.drop_first()));
            if k == 0 {
                assert(pre.drop_first().len() == 0);
                assert(store_after_publishes(m1, pre.drop_first()) == m1);
            } else {
                let kk = k - 1;
                assert(0 <= kk < batches.drop_first().len());
                assert(store_after_publishes(m1, batches.drop_first().take(kk + 1)).version
                    == m1.version + kk + 1);
            }
        }
    }
}

/// The one current snapshot and its version. Created once at startup from
/// the initial scan; mutated only by publishing a fully constructed
/// snapshot, so a partial scan is never observable.
pub struct VersionedStore {
    snapshot: Vec<Note>,
    version: u64,
}

impl View for VersionedStore {
    type V = StoreModel;

    closed spec fn view(&self) -> StoreModel {
        StoreModel { snapshot: self.snapshot@, version: self.version as int }
    }
}

impl VersionedStore {
    /// Create the store from the startup scan; the version starts at zero.
    pub fn new(initial: Vec<Note>) -> (s: Self)
        ensures
            s@.snapshot == initial@,
            s@.version == 0,
    {
        VersionedStore { snapshot: initial, version: 0 }
    }

    /// The latest published snapshot and its version, as one pair: the
    /// version never runs ahead of or behind the snapshot beside it.
    pub fn current(&self) -> (r: (&Vec<Note>, u64))
        ensures
            r.0@ == self@.snapshot,
            r.1 as int == self@.version,
    {
        (&self.snapshot, self.version)
    }

    /// The current version alone.
    pub fn version(&self) -> (v: u64)
        ensures
            v as int == self@.version,
    {
        self.version
    }

    /// Install `notes` as the current snapshot, stepping the version by
    /// exactly one; returns the new version.
    pub fn publish(&mut self, notes: Vec<Note>) -> (v: u64)
        requires
            old(self)@.version < u64::MAX,
        ensures
            final(self)@ == publish_model(old(self)@, notes@),
            v as int == final(self)@.version,
    {
        self.snapshot = notes;
        self.version = self.version + 1;
        self.version
    }

    /// One reader step of the long-poll wait: if the version has moved
    /// past `known_version` the caller is served at once with the current
    /// version; otherwise (`None`) the caller must block until a publish
    /// wakes it or its timeout elapses, and then look again.
    pub fn wait_for_change_step(&self, known_version: u64) -> (r: Option<u64>)
        ensures
            r == (if self@.version == known_version as int {
                None::<u64>
            } else {
                Some((self@.version) as u64)
            }),
    {
        if self.version != known_version {
            Some(self.version)
        } else {
            None
        }
    }

    /// The watcher's decision on a rescan outcome: a successful scan is
    /// published (returning the new version); a failed one leaves the
    /// previous snapshot authoritative, stale but valid.
    pub fn apply_rescan(&mut self, scanned: Result<Vec<Note>, ScanError>) -> (r: Option<u64>)
        requires
            old(self)@.version < u64::MAX,
        ensures
            match scanned {
                Ok(notes) => final(self)@ == publish_model(old(self)@, notes@) && r == Some(
                    (final(self)@.version) as u64,
                ),
                Err(_) => final(self)@ == old(self)@ && r is None,
            },
    {
        match scanned {
            Ok(notes) => Some(self.publish(notes)),
            Err(_) => None,
        }
    }
}

} // verus!
