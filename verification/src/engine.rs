//! The lifecycle orchestrator: sequences flush, create, prune and rollback
//! over the snapshot set, honouring the configured backend mode, the
//! retention policy and the strict-rollback safety gate.
//!
//! The orchestrator operates on a [`SnapStore`], the engine's record of the
//! snapshot set; the embedding process mirrors each decided change onto the
//! volume with the backend tooling and keeps the record in step with what
//! the backend reports.

use vstd::prelude::*;
use crate::config::BtmCfg;
use crate::config::SnapMode;
use crate::config::STEP_CNT;
use crate::error::Error;
use crate::retention::partition_for_retention;
use crate::retention::retention_kept;
use crate::store::spec_create;
use crate::store::spec_truncate_newer;
use crate::store::SnapStore;

verus! {

/// Commits all pending filesystem writes to disk, so that the snapshot
/// taken next is crash-consistent.
///
/// Relies on nix::unistd::sync: commits filesystem caches to disk and
/// returns nothing.
#[verifier::external_body]
fn sync_filesystems() {
    nix::unistd::sync();
}

/// Round trip: creating a snapshot at height `h` and then listing the
/// snapshot set yields `h` as the first (most recent) element, whenever
/// `h` is at least as recent as everything already retained.
pub proof fn lemma_snapshot_then_list_round_trip(s: Seq<u64>, h: u64)
    requires
        forall|i: int| 0 <= i < s.len() ==> s[i] <= h,
    ensures
        spec_create(s, h).len() >= 1,
        spec_create(s, h)[0] == h,
{
}

/// The height a rollback aims at: the requested height, or the most recent
/// snapshot when none is requested.
pub open spec fn spec_rollback_target(s: Seq<u64>, idx: Option<u64>) -> Option<u64> {
    match idx {
        Some(h) => Some(h),
        None => if s.len() == 0 {
            None
        } else {
            Some(s[0])
        },
    }
}

impl BtmCfg {
    /// The configuration is well formed: at least one block between
    /// automatic snapshots.
    pub open spec fn wf(&self) -> bool {
        self.itv >= 1
    }

    /// Resolves a backend mode from the outcome of probing each known
    /// technology against the volume, in fixed priority order; the
    /// `External` mode is never auto-detected.
    pub fn guess_mode(zfs_detected: bool, btrfs_detected: bool) -> (r: Result<SnapMode, Error>)
        ensures
            zfs_detected ==> r == Ok::<SnapMode, Error>(SnapMode::Zfs),
            !zfs_detected && btrfs_detected ==> r == Ok::<SnapMode, Error>(SnapMode::Btrfs),
            !zfs_detected && !btrfs_detected ==> r == Err::<SnapMode, Error>(
                Error::NoBackendDetected,
            ),
    {
        if zfs_detected {
            Ok(SnapMode::Zfs)
        } else if btrfs_detected {
            Ok(SnapMode::Btrfs)
        } else {
            Err(Error::NoBackendDetected)
        }
    }

    /// Takes a snapshot of the latest state at block height `idx`: flushes
    /// pending writes, then records the snapshot, replacing any snapshot
    /// already taken at the same height. A disabled configuration makes
    /// this a no-op that succeeds trivially.
    pub fn snapshot(&self, store: &mut SnapStore, idx: u64) -> (r: Result<(), Error>)
        requires
            old(store).wf(),
        ensures
            final(store).wf(),
            !self.enable ==> r == Ok::<(), Error>(()) && final(store)@ == old(store)@,
            self.enable ==> r == Ok::<(), Error>(()) && final(store)@ == spec_create(
                old(store)@,
                idx,
            ),
    {
        if !self.enable {
            return Ok(());
        }
        // flush before create: the snapshot must only see durable data
        sync_filesystems();
        store.create(idx);
        Ok(())
    }

    /// Rolls the volume back to a snapshot: the requested height, or the
    /// most recent one when none is requested. Fails when the backend mode
    /// is `External`, when the target does not exist, or — in strict mode —
    /// when newer snapshots would be silently discarded. On success every
    /// snapshot newer than the target is gone.
    pub fn rollback(&self, store: &mut SnapStore, idx: Option<u64>, strict: bool) -> (r: Result<
        (),
        Error,
    >)
        requires
            old(store).wf(),
        ensures
            final(store).wf(),
            self.mode == SnapMode::External ==> r == Err::<(), Error>(Error::UnsupportedOperation)
                && final(store)@ == old(store)@,
            self.mode != SnapMode::External ==> match spec_rollback_target(old(store)@, idx) {
                None => r == Err::<(), Error>(Error::TargetNotFound) && final(store)@ == old(
                    store,
                )@,
                Some(t) => {
                    if !old(store)@.contains(t) {
                        r == Err::<(), Error>(Error::TargetNotFound) && final(store)@ == old(
                            store,
                        )@
                    } else if strict && old(store)@[0] > t {
                        r == Err::<(), Error>(Error::StrictRollbackRejected) && final(store)@
                            == old(store)@
                    } else {
                        r == Ok::<(), Error>(()) && final(store)@ == spec_truncate_newer(
                            old(store)@,
                            t,
                        )
                    }
                },
            },
    {
        if matches!(self.mode, SnapMode::External) {
            return Err(Error::UnsupportedOperation);
        }
        let target: u64 = match idx {
            Some(h) => h,
            None => {
                match store.newest() {
                    Some(h) => h,
                    None => {
                        return Err(Error::TargetNotFound);
                    },
                }
            },
        };
        if !store.contains(target) {
            return Err(Error::TargetNotFound);
        }
        if strict {
            let newest = store.newest();
            match newest {
                Some(top) => {
                    if top > target {
                        return Err(Error::StrictRollbackRejected);
                    }
                },
                None => {},
            }
        }
        store.truncate_newer(target);
        Ok(())
    }

    /// The snapshot list, most recent first; empty is valid and not an
    /// error. Fails under the `External` mode, whose snapshot set is
    /// managed out of process.
    pub fn get_sorted_snapshots(&self, store: &SnapStore) -> (r: Result<Vec<u64>, Error>)
        ensures
            self.mode == SnapMode::External ==> r == Err::<Vec<u64>, Error>(
                Error::UnsupportedOperation,
            ),
            self.mode != SnapMode::External ==> match r {
                Ok(v) => v@ == store@,
                Err(_) => false,
            },
    {
        if matches!(self.mode, SnapMode::External) {
            return Err(Error::UnsupportedOperation);
        }
        Ok(store.heights())
    }

    /// Prunes by the retention policy: fetches the snapshot set, asks the
    /// policy engine what to keep under the effective capacity, and drops
    /// the rest. A disabled configuration makes this a no-op that succeeds
    /// trivially; the `External` mode cannot prune in process.
    pub fn prune(&self, store: &mut SnapStore) -> (r: Result<(), Error>)
        requires
            old(store).wf(),
            self.wf(),
        ensures
            final(store).wf(),
            !self.enable ==> r == Ok::<(), Error>(()) && final(store)@ == old(store)@,
            self.enable && self.mode == SnapMode::External ==> r == Err::<(), Error>(
                Error::UnsupportedOperation,
            ) && final(store)@ == old(store)@,
            self.enable && self.mode != SnapMode::External ==> r == Ok::<(), Error>(())
                && final(store)@ == retention_kept(
                old(store)@,
                self.spec_cap(),
                self.algo,
                self.itv,
                STEP_CNT as nat,
            ),
    {
        if !self.enable {
            return Ok(());
        }
        if matches!(self.mode, SnapMode::External) {
            return Err(Error::UnsupportedOperation);
        }
        let heights = store.heights();
        let (kept, _del) = partition_for_retention(
            &heights,
            self.get_cap(),
            self.algo,
            self.itv,
            STEP_CNT,
        );
        store.set_retained(kept);
        Ok(())
    }

    /// Cleans the snapshot set down to the configured number of most
    /// recent survivors. A disabled configuration makes this a no-op that
    /// succeeds trivially; the `External` mode cannot delete in process.
    pub fn clean_snapshots(&self, store: &mut SnapStore) -> (r: Result<(), Error>)
        requires
            old(store).wf(),
        ensures
            final(store).wf(),
            !self.enable ==> r == Ok::<(), Error>(()) && final(store)@ == old(store)@,
            self.enable && self.mode == SnapMode::External ==> r == Err::<(), Error>(
                Error::UnsupportedOperation,
            ) && final(store)@ == old(store)@,
            self.enable && self.mode != SnapMode::External ==> r == Ok::<(), Error>(())
                && final(store)@ == old(store)@.take(
                if self.cap_clean_kept <= old(store)@.len() {
                    self.cap_clean_kept as int
                } else {
                    old(store)@.len() as int
                },
            ),
    {
        if !self.enable {
            return Ok(());
        }
        if matches!(self.mode, SnapMode::External) {
            return Err(Error::UnsupportedOperation);
        }
        store.retain_newest(self.cap_clean_kept);
        Ok(())
    }
}

} // verus!
