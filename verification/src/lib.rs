//! Crash-consistent checkpointing for a blockchain node: copy-on-write
//! filesystem snapshots taken in lock-step with block production, a
//! retention policy that decides which snapshots survive, and a safe
//! rollback protocol.
//!
//! The engine here is the policy core: it decides when a snapshot set
//! changes and exactly what the set becomes. The physical snapshot
//! primitives (running the filesystem tooling) live with the embedding
//! process, which mirrors the decisions proved here onto the volume.

mod config;
mod engine;
mod error;
mod naming;
mod retention;
mod store;

use vstd::prelude::*;

verus! {

pub use crate::config::BtmCfg;
pub use crate::config::SnapAlgo;
pub use crate::config::SnapMode;
pub use crate::config::CAP_MAX;
pub use crate::config::STEP_CNT;
pub use crate::error::Error;
pub use crate::store::desc_sorted;
pub use crate::store::spec_create;
pub use crate::store::spec_truncate_newer;
pub use crate::store::lemma_create;
pub use crate::store::lemma_truncate_newer;
pub use crate::store::SnapStore;
pub use crate::retention::band_bound;
pub use crate::retention::band_of;
pub use crate::retention::fade_deleted;
pub use crate::retention::fade_kept;
pub use crate::retention::fair_deleted;
pub use crate::retention::fair_kept;
pub use crate::retention::keep_count;
pub use crate::retention::lemma_fade_bound;
pub use crate::retention::lemma_fade_newest_kept;
pub use crate::retention::lemma_fade_stable;
pub use crate::retention::lemma_fair_retention;
pub use crate::retention::retention_deleted;
pub use crate::retention::retention_kept;
pub use crate::retention::select_for_deletion;
pub use crate::engine::spec_rollback_target;
pub use crate::engine::lemma_snapshot_then_list_round_trip;
pub use crate::naming::digit_char;
pub use crate::naming::snapshot_name;
pub use crate::naming::spec_decimal;
pub use crate::naming::spec_snapshot_name;
pub use crate::naming::u64_to_decimal;
pub use crate::naming::all_digits;
pub use crate::naming::digit_val;
pub use crate::naming::is_digit;
pub use crate::naming::lemma_decimal_round_trip;
pub use crate::naming::parse_height;
pub use crate::naming::spec_digits_val;

} // verus!
