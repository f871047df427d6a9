//! The retention policy engine: given the descending list of retained
//! snapshot heights, a capacity and an algorithm, decide which heights to
//! keep and which to delete.
//!
//! The engine is pure: it never talks to a backend, it only computes a
//! decision over the set handed to it.
//!
//! - Fair keeps the `capacity` most recent heights, a pure sliding window.
//! - Fade keeps snapshots with decreasing density as they age: the age axis
//!   is split into `steps` bands whose widths grow geometrically (band `i`
//!   spans `interval^i` base intervals); within each band only the
//!   band's newest snapshot is kept, everything older than the last band is
//!   deleted, and if the curve still keeps more than `capacity` heights the
//!   oldest kept representatives are discarded first.

use vstd::prelude::*;
use crate::config::SnapAlgo;
use crate::store::desc_sorted;
use vstd::arithmetic::div_mod::lemma_div_is_ordered;
use vstd::arithmetic::div_mod::lemma_fundamental_div_mod;
use vstd::arithmetic::div_mod::lemma_mod_bound;

verus! {

/// Addition on `u64`, saturating at the top of the range.
pub open spec fn sat_add(a: u64, b: u64) -> u64 {
    if a + b > u64::MAX {
        u64::MAX
    } else {
        (a + b) as u64
    }
}

/// Multiplication on `u64`, saturating at the top of the range.
pub open spec fn sat_mul(a: u64, b: u64) -> u64 {
    if a * b > u64::MAX {
        u64::MAX
    } else {
        (a * b) as u64
    }
}

/// `base^e`, saturating at the top of the `u64` range.
pub open spec fn sat_pow(base: u64, e: nat) -> u64
    decreases e,
{
    if e == 0 {
        1
    } else {
        sat_mul(sat_pow(base, (e - 1) as nat), base)
    }
}

/// The lower edge of band `i`, measured in whole intervals of age:
/// band `i` covers the ages from `band_bound(itv, i)` up to (excluding)
/// `band_bound(itv, i + 1)`, so band `i` spans `itv^i` intervals.
pub open spec fn band_bound(itv: u64, i: nat) -> u64
    decreases i,
{
    if i == 0 {
        0
    } else {
        sat_add(band_bound(itv, (i - 1) as nat), sat_pow(itv, (i - 1) as nat))
    }
}

/// The band an age falls into, scanning upward from band `i`: the first
/// band whose upper edge lies above the age. `steps` doubles as the result
/// for an age beyond the last band ("too old, delete").
pub open spec fn band_from(age: int, itv: u64, i: nat, steps: nat) -> nat
    decreases steps - i,
    when i <= steps
{
    if i >= steps {
        steps
    } else if age < band_bound(itv, (i + 1) as nat) {
        i
    } else {
        band_from(age, itv, (i + 1) as nat, steps)
    }
}

/// The age of height `h` relative to the most recent height, in whole
/// intervals.
pub open spec fn spec_age(newest: u64, h: u64, itv: u64) -> int {
    (newest - h) / (itv as int)
}

/// The fade band of height `h`: `steps` means "beyond the last band".
pub open spec fn band_of(newest: u64, h: u64, itv: u64, steps: nat) -> nat {
    band_from(spec_age(newest, h, itv), itv, 0, steps)
}

/// The heights the fade curve keeps, before the capacity clamp: walking the
/// descending list, a height is kept exactly when its band lies inside the
/// band range and no kept height occupies that band yet (`prev` is the band
/// of the last height kept so far).
pub open spec fn fade_scan(s: Seq<u64>, newest: u64, itv: u64, steps: nat, prev: int) -> Seq<u64>
    decreases s.len(),
{
    if s.len() == 0 {
        Seq::empty()
    } else {
        let b = band_of(newest, s[0], itv, steps);
        if b < steps && prev < b {
            seq![s[0]] + fade_scan(s.drop_first(), newest, itv, steps, b as int)
        } else {
            fade_scan(s.drop_first(), newest, itv, steps, prev)
        }
    }
}

/// The heights the fade curve deletes, before the capacity clamp: the
/// complement of `fade_scan`, in the same order.
pub open spec fn fade_scan_del(s: Seq<u64>, newest: u64, itv: u64, steps: nat, prev: int) -> Seq<
    u64,
>
    decreases s.len(),
{
    if s.len() == 0 {
        Seq::empty()
    } else {
        let b = band_of(newest, s[0], itv, steps);
        if b < steps && prev < b {
            fade_scan_del(s.drop_first(), newest, itv, steps, b as int)
        } else {
            seq![s[0]] + fade_scan_del(s.drop_first(), newest, itv, steps, prev)
        }
    }
}

/// How many heights survive a clamp to `cap`.
pub open spec fn keep_count(cap: u64, len: nat) -> int {
    if cap <= len {
        cap as int
    } else {
        len as int
    }
}

/// The fade curve's kept heights before the capacity clamp.
pub open spec fn fade_pre(s: Seq<u64>, itv: u64, steps: nat) -> Seq<u64> {
    if s.len() == 0 {
        Seq::empty()
    } else {
        fade_scan(s, s[0], itv, steps, -1)
    }
}

/// The heights Fade keeps: the curve's kept heights, oldest discarded
/// first until at most `cap` remain.
pub open spec fn fade_kept(s: Seq<u64>, cap: u64, itv: u64, steps: nat) -> Seq<u64> {
    fade_pre(s, itv, steps).take(keep_count(cap, fade_pre(s, itv, steps).len()))
}

/// The heights Fade deletes: everything the curve drops, then the kept
/// representatives discarded by the capacity clamp, oldest of them last.
pub open spec fn fade_deleted(s: Seq<u64>, cap: u64, itv: u64, steps: nat) -> Seq<u64> {
    (if s.len() == 0 {
        Seq::<u64>::empty()
    } else {
        fade_scan_del(s, s[0], itv, steps, -1)
    }) + fade_pre(s, itv, steps).skip(keep_count(cap, fade_pre(s, itv, steps).len()))
}

/// The heights Fair keeps: the `cap` most recent.
pub open spec fn fair_kept(s: Seq<u64>, cap: u64) -> Seq<u64> {
    s.take(keep_count(cap, s.len()))
}

/// The heights Fair deletes: everything older than the `cap` most recent.
pub open spec fn fair_deleted(s: Seq<u64>, cap: u64) -> Seq<u64> {
    s.skip(keep_count(cap, s.len()))
}

/// The heights the selected algorithm keeps.
pub open spec fn retention_kept(s: Seq<u64>, cap: u64, algo: SnapAlgo, itv: u64, steps: nat) -> Seq<
    u64,
> {
    match algo {
        SnapAlgo::Fair => fair_kept(s, cap),
        SnapAlgo::Fade => fade_kept(s, cap, itv, steps),
    }
}

/// The heights the selected algorithm deletes.
pub open spec fn retention_deleted(
    s: Seq<u64>,
    cap: u64,
    algo: SnapAlgo,
    itv: u64,
    steps: nat,
) -> Seq<u64> {
    match algo {
        SnapAlgo::Fair => fair_deleted(s, cap),
        SnapAlgo::Fade => fade_deleted(s, cap, itv, steps),
    }
}

/// Saturating addition.
fn sat_add_u64(a: u64, b: u64) -> (r: u64)
    ensures
        r == sat_add(a, b),
{
    if a > u64::MAX - b {
        u64::MAX
    } else {
        a + b
    }
}

/// Saturating multiplication.
fn sat_mul_u64(a: u64, b: u64) -> (r: u64)
    ensures
        r == sat_mul(a, b),
{
    if a == 0 || b == 0 {
        0
    } else {
        let q = u64::MAX / b;
        proof {
            let ai = a as int;
            let bi = b as int;
            let m = u64::MAX as int;
            lemma_fundamental_div_mod(m, bi);
            lemma_mod_bound(m, bi);
            if ai > m / bi {
                assert(ai * bi > m) by (nonlinear_arith)
                    requires
                        ai >= m / bi + 1,
                        bi >= 1,
                        m == bi * (m / bi) + m % bi,
                        0 <= m % bi < bi,
                ;
            } else {
                assert(ai * bi <= m) by (nonlinear_arith)
                    requires
                        1 <= ai <= m / bi,
                        bi >= 1,
                        m == bi * (m / bi) + m % bi,
                        0 <= m % bi,
                ;
            }
        }
        if a > q {
            u64::MAX
        } else {
            a * b
        }
    }
}

/// Band lower edges never shrink as the band index grows.
proof fn lemma_band_bound_mono(itv: u64, i: nat, j: nat)
    requires
        i <= j,
    ensures
        band_bound(itv, i) <= band_bound(itv, j),
    decreases j,
{
    if i < j {
        lemma_band_bound_mono(itv, i, (j - 1) as nat);
    }
}

/// An age between the edges of band `b` falls into band `b`, wherever the
/// upward scan starts below `b`.
proof fn lemma_band_from_locate(age: int, itv: u64, i: nat, b: nat, steps: nat)
    requires
        i <= b < steps,
        band_bound(itv, b) <= age,
        age < band_bound(itv, (b + 1) as nat),
    ensures
        band_from(age, itv, i, steps) == b,
    decreases b - i,
{
    if i < b {
        lemma_band_bound_mono(itv, (i + 1) as nat, b);
        lemma_band_from_locate(age, itv, (i + 1) as nat, b, steps);
    }
}

/// An age at or beyond the last band's upper edge falls into no band.
proof fn lemma_band_from_none(age: int, itv: u64, i: nat, steps: nat)
    requires
        i <= steps,
        band_bound(itv, steps) <= age,
    ensures
        band_from(age, itv, i, steps) == steps,
    decreases steps - i,
{
    if i < steps {
        lemma_band_bound_mono(itv, (i + 1) as nat, steps);
        lemma_band_from_none(age, itv, (i + 1) as nat, steps);
    }
}

/// The curve's kept and deleted heights together account for every input
/// height.
pub proof fn lemma_scan_lens(s: Seq<u64>, newest: u64, itv: u64, steps: nat, prev: int)
    ensures
        fade_scan(s, newest, itv, steps, prev).len() + fade_scan_del(
            s,
            newest,
            itv,
            steps,
            prev,
        ).len() == s.len(),
    decreases s.len(),
{
    if s.len() > 0 {
        let b = band_of(newest, s[0], itv, steps);
        if b < steps && prev < b {
            lemma_scan_lens(s.drop_first(), newest, itv, steps, b as int);
        } else {
            lemma_scan_lens(s.drop_first(), newest, itv, steps, prev);
        }
    }
}

/// The curve's kept heights stay strictly descending and come from the
/// input.
proof fn lemma_scan_desc(s: Seq<u64>, newest: u64, itv: u64, steps: nat, prev: int)
    requires
        desc_sorted(s),
    ensures
        desc_sorted(fade_scan(s, newest, itv, steps, prev)),
        forall|x: u64| #[trigger]
            fade_scan(s, newest, itv, steps, prev).contains(x) ==> s.contains(x),
    decreases s.len(),
{
    let r = fade_scan(s, newest, itv, steps, prev);
    if s.len() > 0 {
        let d = s.drop_first();
        assert(desc_sorted(d));
        let b = band_of(newest, s[0], itv, steps);
        assert forall|x: u64| #[trigger] d.contains(x) implies s.contains(x) && s[0] > x by {
            let k = choose|k: int| 0 <= k < d.len() && d[k] == x;
            assert(s[k + 1] == x);
        }
        if b < steps && prev < b {
            lemma_scan_desc(d, newest, itv, steps, b as int);
            let rd = fade_scan(d, newest, itv, steps, b as int);
            assert(r == seq![s[0]] + rd);
            assert forall|i: int, j: int| 0 <= i < j < r.len() implies r[i] > r[j] by {
                if i == 0 {
                    assert(rd.contains(rd[j - 1])) by {
                        assert(rd[j - 1] == rd[j - 1]);
                    }
                    assert(d.contains(rd[j - 1]));
                } else {
                    assert(rd[i - 1] > rd[j - 1]);
                }
            }
            assert forall|x: u64| #[trigger] r.contains(x) implies s.contains(x) by {
                let k = choose|k: int| 0 <= k < r.len() && r[k] == x;
                if k == 0 {
                    assert(s[0] == x);
                } else {
                    assert(rd[k - 1] == x);
                    assert(rd.contains(x));
                }
            }
        } else {
            lemma_scan_desc(d, newest, itv, steps, prev);
        }
    }
}

/// What the curve deletes comes from the input.
proof fn lemma_scan_del_subset(s: Seq<u64>, newest: u64, itv: u64, steps: nat, prev: int)
    ensures
        forall|x: u64| #[trigger]
            fade_scan_del(s, newest, itv, steps, prev).contains(x) ==> s.contains(x),
    decreases s.len(),
{
    let r = fade_scan_del(s, newest, itv, steps, prev);
    if s.len() > 0 {
        let d = s.drop_first();
        let b = band_of(newest, s[0], itv, steps);
        assert forall|x: u64| #[trigger] d.contains(x) implies s.contains(x) by {
            let k = choose|k: int| 0 <= k < d.len() && d[k] == x;
            assert(s[k + 1] == x);
        }
        if b < steps && prev < b {
            lemma_scan_del_subset(d, newest, itv, steps, b as int);
            assert forall|x: u64| #[trigger] r.contains(x) implies s.contains(x) by {
                assert(fade_scan_del(d, newest, itv, steps, b as int).contains(x));
            }
        } else {
            lemma_scan_del_subset(d, newest, itv, steps, prev);
            let rd = fade_scan_del(d, newest, itv, steps, prev);
            assert(r == seq![s[0]] + rd);
            assert forall|x: u64| #[trigger] r.contains(x) implies s.contains(x) by {
                let k = choose|k: int| 0 <= k < r.len() && r[k] == x;
                if k == 0 {
                    assert(s[0] == x);
                } else {
                    assert(rd[k - 1] == x);
                    assert(rd.contains(x));
                }
            }
        }
    }
}

/// A strictly increasing chain of in-range bands, starting above `prev`.
pub open spec fn chain_ok(r: Seq<u64>, newest: u64, itv: u64, steps: nat, prev: int) -> bool
    decreases r.len(),
{
    r.len() == 0 || {
        let b = band_of(newest, r[0], itv, steps);
        &&& b < steps
        &&& prev < b as int
        &&& chain_ok(r.drop_first(), newest, itv, steps, b as int)
    }
}

/// What the curve keeps is a chain: one height per band, bands strictly
/// increasing with age.
proof fn lemma_scan_chain(s: Seq<u64>, newest: u64, itv: u64, steps: nat, prev: int)
    ensures
        chain_ok(fade_scan(s, newest, itv, steps, prev), newest, itv, steps, prev),
    decreases s.len(),
{
    if s.len() > 0 {
        let b = band_of(newest, s[0], itv, steps);
        if b < steps && prev < b {
            lemma_scan_chain(s.drop_first(), newest, itv, steps, b as int);
            let rd = fade_scan(s.drop_first(), newest, itv, steps, b as int);
            let r = seq![s[0]] + rd;
            assert(r.drop_first() =~= rd);
            assert(r[0] == s[0]);
        } else {
            lemma_scan_chain(s.drop_first(), newest, itv, steps, prev);
        }
    }
}

/// A prefix of a chain is a chain.
proof fn lemma_chain_take(r: Seq<u64>, newest: u64, itv: u64, steps: nat, prev: int, k: int)
    requires
        chain_ok(r, newest, itv, steps, prev),
        0 <= k <= r.len(),
    ensures
        chain_ok(r.take(k), newest, itv, steps, prev),
    decreases r.len(),
{
    if k > 0 && r.len() > 0 {
        let b = band_of(newest, r[0], itv, steps);
        assert(r.take(k)[0] == r[0]);
        assert(r.take(k).drop_first() =~= r.drop_first().take(k - 1));
        lemma_chain_take(r.drop_first(), newest, itv, steps, b as int, k - 1);
    }
}

/// Running the curve over a chain keeps the whole chain and deletes
/// nothing.
proof fn lemma_chain_identity(r: Seq<u64>, newest: u64, itv: u64, steps: nat, prev: int)
    requires
        chain_ok(r, newest, itv, steps, prev),
    ensures
        fade_scan(r, newest, itv, steps, prev) == r,
        fade_scan_del(r, newest, itv, steps, prev) == Seq::<u64>::empty(),
    decreases r.len(),
{
    if r.len() == 0 {
        assert(fade_scan(r, newest, itv, steps, prev) =~= r);
        assert(fade_scan_del(r, newest, itv, steps, prev) =~= Seq::<u64>::empty());
    } else {
        let b = band_of(newest, r[0], itv, steps);
        lemma_chain_identity(r.drop_first(), newest, itv, steps, b as int);
        assert(fade_scan(r, newest, itv, steps, prev) == seq![r[0]] + r.drop_first());
        assert(seq![r[0]] + r.drop_first() =~= r);
    }
}

/// The most recent height sits in band 0, which is always in range.
proof fn lemma_newest_band_zero(newest: u64, itv: u64, steps: nat)
    requires
        itv >= 1,
        steps >= 1,
    ensures
        band_of(newest, newest, itv, steps) == 0,
{
    assert(spec_age(newest, newest, itv) == 0) by {
        assert((newest - newest) as int / (itv as int) == 0);
    }
    assert(band_bound(itv, 1) == sat_add(band_bound(itv, 0), sat_pow(itv, 0)));
    assert(band_bound(itv, 1) == 1);
}

/// Fade never keeps more than `cap` heights, and every input height is
/// either kept or deleted.
pub proof fn lemma_fade_bound(s: Seq<u64>, cap: u64, itv: u64, steps: nat)
    ensures
        fade_kept(s, cap, itv, steps).len() <= cap,
        fade_kept(s, cap, itv, steps).len() + fade_deleted(s, cap, itv, steps).len() == s.len(),
{
    if s.len() == 0 {
        assert(fade_pre(s, itv, steps).len() == 0);
    } else {
        lemma_scan_lens(s, s[0], itv, steps, -1);
    }
}

/// The most recent height is always kept by Fade, as the first (most
/// recent) kept height, whenever the capacity admits any height at all.
pub proof fn lemma_fade_newest_kept(s: Seq<u64>, cap: u64, itv: u64, steps: nat)
    requires
        desc_sorted(s),
        s.len() >= 1,
        cap >= 1,
        itv >= 1,
        steps >= 1,
    ensures
        fade_kept(s, cap, itv, steps).len() >= 1,
        fade_kept(s, cap, itv, steps)[0] == s[0],
        !fade_deleted(s, cap, itv, steps).contains(s[0]),
{
    lemma_newest_band_zero(s[0], itv, steps);
    let pre = fade_pre(s, itv, steps);
    let d = s.drop_first();
    assert(pre[0] == s[0] && pre.len() >= 1 && pre == seq![s[0]] + fade_scan(
        d,
        s[0],
        itv,
        steps,
        0,
    )) by {
        assert(fade_scan(s, s[0], itv, steps, -1) == seq![s[0]] + fade_scan(d, s[0], itv, steps, 0));
    }
    let sd = fade_scan_del(s, s[0], itv, steps, -1);
    let m = keep_count(cap, pre.len());
    let rest = pre.skip(m);
    assert(sd == fade_scan_del(d, s[0], itv, steps, 0));
    lemma_scan_del_subset(d, s[0], itv, steps, 0);
    lemma_scan_desc(s, s[0], itv, steps, -1);
    assert forall|k: int| 0 <= k < (sd + rest).len() implies (sd + rest)[k] != s[0] by {
        if k < sd.len() {
            assert(sd.contains(sd[k])) by {
                assert(sd[k] == sd[k]);
            }
            assert(d.contains(sd[k]));
            let j = choose|j: int| 0 <= j < d.len() && d[j] == sd[k];
            assert(s[j + 1] == sd[k]);
            assert(s[0] >= s[j + 1] && s[0] != s[j + 1]) by {
                assert(s[0] > s[j + 1]);
            }
        } else {
            let i = k - sd.len();
            assert(rest[i] == pre[m + i]);
            assert(pre[0] > pre[m + i]);
        }
    }
    assert(fade_deleted(s, cap, itv, steps) == sd + rest);
    if fade_deleted(s, cap, itv, steps).contains(s[0]) {
        let w = choose|w: int|
            0 <= w < (sd + rest).len() && (sd + rest)[w] == s[0];
        assert(false);
    }
}

/// Fade is stable: running it again on what it kept deletes nothing and
/// keeps everything.
pub proof fn lemma_fade_stable(s: Seq<u64>, cap: u64, itv: u64, steps: nat)
    requires
        desc_sorted(s),
        itv >= 1,
        steps >= 1,
    ensures
        fade_kept(fade_kept(s, cap, itv, steps), cap, itv, steps) == fade_kept(s, cap, itv, steps),
        fade_deleted(fade_kept(s, cap, itv, steps), cap, itv, steps) == Seq::<u64>::empty(),
{
    let kept = fade_kept(s, cap, itv, steps);
    if s.len() == 0 || cap == 0 {
        assert(kept =~= Seq::<u64>::empty()) by {
            if s.len() == 0 {
                assert(fade_pre(s, itv, steps).len() == 0);
            }
        }
        assert(fade_pre(kept, itv, steps) =~= Seq::<u64>::empty());
        assert(fade_kept(kept, cap, itv, steps) =~= kept);
        assert(fade_deleted(kept, cap, itv, steps) =~= Seq::<u64>::empty());
    } else {
        lemma_fade_newest_kept(s, cap, itv, steps);
        let pre = fade_pre(s, itv, steps);
        lemma_scan_chain(s, s[0], itv, steps, -1);
        lemma_chain_take(pre, s[0], itv, steps, -1, keep_count(cap, pre.len()));
        assert(chain_ok(kept, s[0], itv, steps, -1));
        lemma_chain_identity(kept, s[0], itv, steps, -1);
        assert(kept[0] == s[0]);
        assert(fade_pre(kept, itv, steps) == kept);
        assert(kept.len() <= cap);
        assert(keep_count(cap, kept.len()) == kept.len() as int);
        assert(fade_kept(kept, cap, itv, steps) =~= kept);
        assert(kept.skip(kept.len() as int) =~= Seq::<u64>::empty());
        assert(fade_deleted(kept, cap, itv, steps) =~= Seq::<u64>::empty());
    }
}

/// Fair keeps exactly the `cap` most recent heights and deletes the rest;
/// re-running it on what it kept deletes nothing.
pub proof fn lemma_fair_retention(s: Seq<u64>, cap: u64)
    ensures
        fair_kept(s, cap).len() == keep_count(cap, s.len()),
        fair_kept(s, cap) == s.take(keep_count(cap, s.len())),
        fair_kept(s, cap).len() + fair_deleted(s, cap).len() == s.len(),
        fair_kept(fair_kept(s, cap), cap) == fair_kept(s, cap),
        fair_deleted(fair_kept(s, cap), cap) == Seq::<u64>::empty(),
{
    let kept = fair_kept(s, cap);
    assert(kept.len() == keep_count(cap, s.len()));
    assert(keep_count(cap, kept.len()) == kept.len() as int);
    assert(fair_kept(kept, cap) =~= kept);
    assert(fair_deleted(kept, cap) =~= Seq::<u64>::empty());
}

/// Splits the heights into what Fair keeps and what it deletes.
fn fair_partition(heights: &Vec<u64>, capacity: u64) -> (r: (Vec<u64>, Vec<u64>))
    ensures
        r.0@ == fair_kept(heights@, capacity),
        r.1@ == fair_deleted(heights@, capacity),
{
    let ghost s = heights@;
    let n = heights.len();
    let m: usize = if capacity <= n as u64 {
        capacity as usize
    } else {
        n
    };
    let mut kept: Vec<u64> = Vec::new();
    let mut del: Vec<u64> = Vec::new();
    let mut i: usize = 0;
    while i < m
        invariant
            0 <= i <= m <= n,
            n == s.len(),
            heights@ == s,
            m as int == keep_count(capacity, s.len()),
            kept@ == s.subrange(0, i as int),
        decreases m - i,
    {
        kept.push(heights[i]);
        assert(kept@ =~= s.subrange(0, i + 1 as int));
        i = i + 1;
    }
    let mut j: usize = m;
    while j < n
        invariant
            m <= j <= n,
            n == s.len(),
            heights@ == s,
            del@ == s.subrange(m as int, j as int),
        decreases n - j,
    {
        del.push(heights[j]);
        assert(del@ =~= s.subrange(m as int, j + 1 as int));
        j = j + 1;
    }
    proof {
        assert(kept@ =~= fair_kept(s, capacity));
        assert(del@ =~= fair_deleted(s, capacity));
    }
    (kept, del)
}

/// Splits the heights into what Fade keeps and what it deletes.
fn fade_partition(heights: &Vec<u64>, capacity: u64, interval: u64, steps: usize) -> (r: (
    Vec<u64>,
    Vec<u64>,
))
    requires
        desc_sorted(heights@),
        interval >= 1,
    ensures
        r.0@ == fade_kept(heights@, capacity, interval, steps as nat),
        r.1@ == fade_deleted(heights@, capacity, interval, steps as nat),
{
    let ghost s = heights@;
    let ghost stn = steps as nat;
    let n = heights.len();
    let mut kept: Vec<u64> = Vec::new();
    let mut del: Vec<u64> = Vec::new();
    if n == 0 {
        proof {
            assert(kept@ =~= fade_kept(s, capacity, interval, stn));
            assert(del@ =~= fade_deleted(s, capacity, interval, stn));
        }
        return (kept, del);
    }
    let newest = heights[0];
    let mut band: usize = 0;
    let mut pw: u64 = 1;
    let mut bound_next: u64 = sat_add_u64(0, 1);
    let mut has_kept: bool = false;
    let mut prev_band: usize = 0;
    let ghost full_scan = fade_scan(s, newest, interval, stn, -1);
    let ghost full_del = fade_scan_del(s, newest, interval, stn, -1);
    let mut i: usize = 0;
    proof {
        assert(s.skip(0) =~= s);
        assert(band_bound(interval, 0) == 0);
        assert(sat_pow(interval, 0) == 1);
        assert(band_bound(interval, 1) == sat_add(0, 1));
    }
    while i < n
        invariant
            0 <= i <= n,
            n == s.len(),
            heights@ == s,
            newest == s[0],
            interval >= 1,
            desc_sorted(s),
            stn == steps as nat,
            band <= steps,
            pw == sat_pow(interval, band as nat),
            bound_next == band_bound(interval, (band + 1) as nat),
            i < n ==> band_bound(interval, band as nat) <= spec_age(newest, s[i as int], interval),
            has_kept ==> prev_band <= band && (prev_band as int) < stn,
            full_scan == kept@ + fade_scan(
                s.skip(i as int),
                newest,
                interval,
                stn,
                if has_kept {
                    prev_band as int
                } else {
                    -1
                },
            ),
            full_del == del@ + fade_scan_del(
                s.skip(i as int),
                newest,
                interval,
                stn,
                if has_kept {
                    prev_band as int
                } else {
                    -1
                },
            ),
        decreases n - i,
    {
        let h = heights[i];
        let age = (newest - h) / interval;
        proof {
            assert(s[0] >= s[i as int]) by {
                if i > 0 {
                    assert(s[0] > s[i as int]);
                }
            }
            assert(age as int == spec_age(newest, h, interval));
        }
        while band < steps && age >= bound_next
            invariant
                band <= steps,
                stn == steps as nat,
                pw == sat_pow(interval, band as nat),
                bound_next == band_bound(interval, (band + 1) as nat),
                band_bound(interval, band as nat) <= age as int,
                has_kept ==> prev_band <= band,
            decreases steps - band,
        {
            band = band + 1;
            pw = sat_mul_u64(pw, interval);
            bound_next = sat_add_u64(bound_next, pw);
        }
        proof {
            if band < steps {
                lemma_band_from_locate(age as int, interval, 0, band as nat, stn);
                assert(band_of(newest, h, interval, stn) == band as nat);
            } else {
                lemma_band_from_none(age as int, interval, 0, stn);
                assert(band_of(newest, h, interval, stn) == stn);
            }
            assert(s.skip(i as int)[0] == s[i as int]);
            assert(s.skip(i as int).drop_first() =~= s.skip(i + 1 as int));
        }
        let ghost prev_i: int = if has_kept {
            prev_band as int
        } else {
            -1
        };
        if band < steps && (!has_kept || prev_band < band) {
            proof {
                assert(fade_scan(s.skip(i as int), newest, interval, stn, prev_i) == seq![h]
                    + fade_scan(s.skip(i + 1 as int), newest, interval, stn, band as int));
                assert(kept@ + (seq![h] + fade_scan(
                    s.skip(i + 1 as int),
                    newest,
                    interval,
                    stn,
                    band as int,
                )) =~= kept@.push(h) + fade_scan(
                    s.skip(i + 1 as int),
                    newest,
                    interval,
                    stn,
                    band as int,
                ));
            }
            kept.push(h);
            has_kept = true;
            prev_band = band;
        } else {
            proof {
                assert(fade_scan_del(s.skip(i as int), newest, interval, stn, prev_i) == seq![h]
                    + fade_scan_del(s.skip(i + 1 as int), newest, interval, stn, prev_i));
                assert(del@ + (seq![h] + fade_scan_del(
                    s.skip(i + 1 as int),
                    newest,
                    interval,
                    stn,
                    prev_i,
                )) =~= del@.push(h) + fade_scan_del(
                    s.skip(i + 1 as int),
                    newest,
                    interval,
                    stn,
                    prev_i,
                ));
            }
            del.push(h);
        }
        proof {
            if i + 1 < n {
                assert(s[i as int] > s[i + 1 as int]);
                lemma_div_is_ordered(
                    (newest - s[i as int]) as int,
                    (newest - s[i + 1 as int]) as int,
                    interval as int,
                );
                assert(band_bound(interval, band as nat) <= spec_age(
                    newest,
                    s[i + 1 as int],
                    interval,
                ));
            }
        }
        i = i + 1;
    }
    proof {
        assert(s.skip(n as int) =~= Seq::<u64>::empty());
        assert(kept@ + Seq::<u64>::empty() =~= kept@);
        assert(del@ + Seq::<u64>::empty() =~= del@);
        assert(kept@ == full_scan);
        assert(del@ == full_del);
        assert(fade_pre(s, interval, stn) == full_scan);
    }
    // clamp to capacity: discard the oldest kept representatives first
    let keep_n: usize = if capacity <= kept.len() as u64 {
        capacity as usize
    } else {
        kept.len()
    };
    proof {
        assert(keep_n as int == keep_count(capacity, full_scan.len()));
    }
    let mut j: usize = keep_n;
    while j < kept.len()
        invariant
            keep_n <= j <= kept.len(),
            kept@ == full_scan,
            del@ == full_del + full_scan.subrange(keep_n as int, j as int),
        decreases kept.len() - j,
    {
        proof {
            assert(full_del + full_scan.subrange(keep_n as int, j + 1 as int) =~= (full_del
                + full_scan.subrange(keep_n as int, j as int)).push(full_scan[j as int]));
        }
        let x = kept[j];
        del.push(x);
        j = j + 1;
    }
    proof {
        assert(del@ =~= fade_deleted(s, capacity, interval, stn));
    }
    proof {
        assert(full_scan.take(full_scan.len() as int) =~= full_scan);
    }
    while kept.len() > keep_n
        invariant
            keep_n <= kept.len() <= full_scan.len(),
            kept@ == full_scan.take(kept.len() as int),
        decreases kept.len(),
    {
        proof {
            assert(full_scan.take(kept.len() as int).drop_last() =~= full_scan.take(
                kept.len() - 1,
            ));
        }
        kept.pop();
    }
    proof {
        assert(kept@ == fade_kept(s, capacity, interval, stn));
    }
    (kept, del)
}

/// Splits the heights into what the selected algorithm keeps and what it
/// deletes.
pub(crate) fn partition_for_retention(
    heights: &Vec<u64>,
    capacity: u64,
    algorithm: SnapAlgo,
    interval: u64,
    steps: usize,
) -> (r: (Vec<u64>, Vec<u64>))
    requires
        desc_sorted(heights@),
        interval >= 1,
    ensures
        r.0@ == retention_kept(heights@, capacity, algorithm, interval, steps as nat),
        r.1@ == retention_deleted(heights@, capacity, algorithm, interval, steps as nat),
        desc_sorted(r.0@),
{
    let r = match algorithm {
        SnapAlgo::Fair => fair_partition(heights, capacity),
        SnapAlgo::Fade => fade_partition(heights, capacity, interval, steps),
    };
    proof {
        match algorithm {
            SnapAlgo::Fair => {
                assert(desc_sorted(r.0@)) by {
                    assert(r.0@ == heights@.take(keep_count(capacity, heights@.len())));
                }
            },
            SnapAlgo::Fade => {
                assert(desc_sorted(r.0@)) by {
                    if heights@.len() > 0 {
                        lemma_scan_desc(
                            heights@,
                            heights@[0],
                            interval,
                            steps as nat,
                            -1,
                        );
                        let pre = fade_pre(heights@, interval, steps as nat);
                        assert(desc_sorted(pre));
                        assert(forall|a: int, b: int|
                            0 <= a < b < r.0@.len() ==> r.0@[a] == pre[a] && r.0@[b] == pre[b]);
                    } else {
                        assert(fade_pre(heights@, interval, steps as nat).len() == 0);
                    }
                }
            },
        }
    }
    r
}

/// Computes the set of heights the retention policy deletes from the given
/// descending snapshot set under the given capacity and algorithm.
pub fn select_for_deletion(
    heights: &Vec<u64>,
    capacity: u64,
    algorithm: SnapAlgo,
    interval: u64,
    steps: usize,
) -> (r: Vec<u64>)
    requires
        desc_sorted(heights@),
        interval >= 1,
    ensures
        r@ == retention_deleted(heights@, capacity, algorithm, interval, steps as nat),
{
    let (_kept, del) = partition_for_retention(heights, capacity, algorithm, interval, steps);
    del
}

} // verus!
