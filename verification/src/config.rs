//! Session configuration: backend mode, retention algorithm, capacities.

use vstd::prelude::*;
use crate::error::Error;

verus! {

/// Hard ceiling on the number of snapshots retained at once; a configured
/// capacity above this value is clamped down to it.
pub const CAP_MAX: u64 = 4096;

/// Number of density bands used by the fading retention algorithm.
pub const STEP_CNT: usize = 10;

/// The backend technology that physically implements snapshot primitives.
#[derive(Clone, Copy, Debug, PartialEq, Eq, Structural)]
pub enum SnapMode {
    /// A COW filesystem managed through the `zfs` toolchain.
    Zfs,
    /// A COW filesystem managed through the `btrfs` toolchain.
    Btrfs,
    /// Snapshot mechanics delegated to an out-of-process tool; in-process
    /// rollback and listing are deliberately unsupported in this mode.
    External,
}

/// The retention strategy used when pruning snapshots.
#[derive(Clone, Copy, Debug, PartialEq, Eq, Structural)]
pub enum SnapAlgo {
    /// Keep the `capacity` most recent snapshots, a pure sliding window.
    Fair,
    /// Keep snapshots with decreasing density as they age.
    Fade,
}

/// One character equals another up to ASCII case folding of the first
/// (the second is expected to be lower case already).
pub open spec fn char_eq_lower(c: char, k: char) -> bool {
    c == k || (65 <= c as u32 <= 90 && c as u32 + 32 == k as u32)
}

/// The two character sequences are equal up to ASCII case folding of the
/// first; the second is a lower-case keyword.
pub open spec fn eq_ignore_ascii_case(s: Seq<char>, k: Seq<char>) -> bool {
    s.len() == k.len() && forall|i: int| 0 <= i < s.len() ==> char_eq_lower(s[i], #[trigger] k[i])
}

/// Compares `s` against the lower-case keyword `k`, ignoring ASCII case in `s`.
fn str_eq_ignore_case(s: &str, k: &str) -> (r: bool)
    ensures
        r == eq_ignore_ascii_case(s@, k@),
{
    let n = s.unicode_len();
    if n != k.unicode_len() {
        return false;
    }
    let mut i: usize = 0;
    while i < n
        invariant
            0 <= i <= n,
            n == s@.len(),
            n == k@.len(),
            forall|j: int| 0 <= j < i ==> char_eq_lower(s@[j], #[trigger] k@[j]),
        decreases n - i,
    {
        let c = s.get_char(i) as u32;
        let kc = k.get_char(i) as u32;
        if !(c == kc || (65 <= c && c <= 90 && c + 32 == kc)) {
            return false;
        }
        i = i + 1;
    }
    true
}

/// The backend mode a configuration string denotes, if any.
pub open spec fn spec_mode_from_string(s: Seq<char>) -> Result<SnapMode, Error> {
    if eq_ignore_ascii_case(s, "zfs"@) {
        Ok(SnapMode::Zfs)
    } else if eq_ignore_ascii_case(s, "btrfs"@) {
        Ok(SnapMode::Btrfs)
    } else if eq_ignore_ascii_case(s, "external"@) {
        Ok(SnapMode::External)
    } else {
        Err(Error::ConfigurationInvalid)
    }
}

/// The retention algorithm a configuration string denotes, if any.
pub open spec fn spec_algo_from_string(s: Seq<char>) -> Result<SnapAlgo, Error> {
    if eq_ignore_ascii_case(s, "fair"@) {
        Ok(SnapAlgo::Fair)
    } else if eq_ignore_ascii_case(s, "fade"@) {
        Ok(SnapAlgo::Fade)
    } else {
        Err(Error::ConfigurationInvalid)
    }
}

/// The display name of a backend mode.
pub open spec fn spec_mode_name(m: SnapMode) -> Seq<char> {
    match m {
        SnapMode::Zfs => "Zfs"@,
        SnapMode::Btrfs => "Btrfs"@,
        SnapMode::External => "External"@,
    }
}

/// The display name of a retention algorithm.
pub open spec fn spec_algo_name(a: SnapAlgo) -> Seq<char> {
    match a {
        SnapAlgo::Fair => "Fair"@,
        SnapAlgo::Fade => "Fade"@,
    }
}

impl SnapMode {
    /// Parses a backend mode from its configuration string, ignoring ASCII case.
    pub fn from_string(m: &str) -> (r: Result<SnapMode, Error>)
        ensures
            r == spec_mode_from_string(m@),
    {
        if str_eq_ignore_case(m, "zfs") {
            Ok(SnapMode::Zfs)
        } else if str_eq_ignore_case(m, "btrfs") {
            Ok(SnapMode::Btrfs)
        } else if str_eq_ignore_case(m, "external") {
            Ok(SnapMode::External)
        } else {
            Err(Error::ConfigurationInvalid)
        }
    }

    /// The display name of this mode.
    pub fn name(&self) -> (r: &'static str)
        ensures
            r@ == spec_mode_name(*self),
    {
        match self {
            SnapMode::Zfs => "Zfs",
            SnapMode::Btrfs => "Btrfs",
            SnapMode::External => "External",
        }
    }
}

impl core::str::FromStr for SnapMode {
    type Err = String;

    fn from_str(s: &str) -> Result<Self, String> {
        match Self::from_string(s) {
            Ok(m) => Ok(m),
            Err(_) => Err(<String as vstd::string::StringExecFns>::from_str("unrecognized backend mode")),
        }
    }
}

impl Default for SnapMode {
    /// The default backend mode.
    fn default() -> (r: Self)
        ensures
            r == SnapMode::Zfs,
    {
        SnapMode::Zfs
    }
}

impl SnapAlgo {
    /// Parses a retention algorithm from its configuration string, ignoring
    /// ASCII case.
    pub fn from_string(m: &str) -> (r: Result<SnapAlgo, Error>)
        ensures
            r == spec_algo_from_string(m@),
    {
        if str_eq_ignore_case(m, "fair") {
            Ok(SnapAlgo::Fair)
        } else if str_eq_ignore_case(m, "fade") {
            Ok(SnapAlgo::Fade)
        } else {
            Err(Error::ConfigurationInvalid)
        }
    }

    /// The display name of this algorithm.
    pub fn name(&self) -> (r: &'static str)
        ensures
            r@ == spec_algo_name(*self),
    {
        match self {
            SnapAlgo::Fair => "Fair",
            SnapAlgo::Fade => "Fade",
        }
    }
}

impl core::str::FromStr for SnapAlgo {
    type Err = String;

    fn from_str(s: &str) -> Result<Self, String> {
        match Self::from_string(s) {
            Ok(a) => Ok(a),
            Err(_) => Err(<String as vstd::string::StringExecFns>::from_str("unrecognized retention algorithm")),
        }
    }
}

impl Default for SnapAlgo {
    /// The default retention algorithm.
    fn default() -> (r: Self)
        ensures
            r == SnapAlgo::Fair,
    {
        SnapAlgo::Fair
    }
}

/// Per-session snapshot configuration, created once and read-only thereafter.
#[derive(Clone, Debug)]
pub struct BtmCfg {
    /// Global switch: when false, every lifecycle operation is a no-op that
    /// succeeds trivially.
    pub enable: bool,
    /// Number of blocks between automatic snapshots; also the base of the
    /// fading algorithm's geometric bands. Always at least 1.
    pub itv: u64,
    /// Maximum number of snapshots retained at once; values above `CAP_MAX`
    /// are clamped when the effective capacity is computed.
    pub cap: u64,
    /// How many of the most recent snapshots survive an explicit clean,
    /// independent of `cap`.
    pub cap_clean_kept: usize,
    /// The backend technology managing the volume.
    pub mode: SnapMode,
    /// The retention strategy used when pruning.
    pub algo: SnapAlgo,
    /// The storage volume or subvolume that snapshots are taken of.
    pub volume: String,
}

impl BtmCfg {
    /// A disabled configuration with the stock field values.
    fn stock() -> (r: Self)
        ensures
            r.enable == false,
            r.itv == 10,
            r.cap == 100,
            r.cap_clean_kept == 0,
            r.mode == SnapMode::Zfs,
            r.algo == SnapAlgo::Fair,
            r.volume@ == "zfs/data"@,
    {
        BtmCfg {
            enable: false,
            itv: 10,
            cap: 100,
            cap_clean_kept: 0,
            mode: SnapMode::Zfs,
            algo: SnapAlgo::Fair,
            volume: "zfs/data".to_owned(),
        }
    }

    /// The stock configuration with the snapshot functions switched on.
    fn new_enabled() -> (r: Self)
        ensures
            r.enable == true,
            r.itv == 10,
            r.cap == 100,
            r.cap_clean_kept == 0,
            r.mode == SnapMode::Zfs,
            r.algo == SnapAlgo::Fair,
            r.volume@ == "zfs/data"@,
    {
        BtmCfg { enable: true, ..Self::stock() }
    }

    /// Creates a simple enabled instance.
    pub fn new() -> (r: Self)
        ensures
            r.enable == true,
            r.itv == 10,
            r.cap == 100,
            r.cap_clean_kept == 0,
            r.mode == SnapMode::Zfs,
            r.algo == SnapAlgo::Fair,
            r.volume@ == "zfs/data"@,
    {
        Self::new_enabled()
    }

    /// Creates an enabled instance for use on the client side.
    pub fn new_client_hdr() -> (r: Self)
        ensures
            r.enable == true,
            r.itv == 10,
            r.cap == 100,
            r.cap_clean_kept == 0,
            r.mode == SnapMode::Zfs,
            r.algo == SnapAlgo::Fair,
            r.volume@ == "zfs/data"@,
    {
        Self::new_enabled()
    }

    /// The effective retention capacity: the configured value, clamped to
    /// `CAP_MAX`.
    pub fn get_cap(&self) -> (r: u64)
        ensures
            r == self.spec_cap(),
    {
        if self.cap > CAP_MAX {
            CAP_MAX
        } else {
            self.cap
        }
    }

    /// The effective retention capacity.
    pub open spec fn spec_cap(&self) -> u64 {
        if self.cap > CAP_MAX {
            CAP_MAX as u64
        } else {
            self.cap
        }
    }
}

impl Default for BtmCfg {
    /// The stock configuration: disabled, interval 10, capacity 100,
    /// Zfs backend, Fair retention, volume `zfs/data`.
    fn default() -> (r: Self)
        ensures
            r.enable == false,
            r.itv == 10,
            r.cap == 100,
            r.cap_clean_kept == 0,
            r.mode == SnapMode::Zfs,
            r.algo == SnapAlgo::Fair,
            r.volume@ == "zfs/data"@,
    {
        Self::stock()
    }
}

} // verus!
