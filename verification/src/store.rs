//! The engine's record of the snapshot set of one volume.
//!
//! A snapshot is identified solely by the block height at which it was
//! taken; heights are unique per volume and the record keeps them in
//! strictly descending order (most recent first), the order in which the
//! backend reports them.

use vstd::prelude::*;

verus! {

/// The heights are in strictly descending order.
pub open spec fn desc_sorted(s: Seq<u64>) -> bool {
    forall|i: int, j: int| 0 <= i < j < s.len() ==> s[i] > s[j]
}

/// The snapshot set after a create at height `h`: every height above `h`
/// first, then `h`, then every height below `h`. A pre-existing snapshot at
/// `h` itself is removed first (idempotent overwrite).
pub open spec fn spec_create(s: Seq<u64>, h: u64) -> Seq<u64>
    decreases s.len(),
{
    if s.len() == 0 {
        seq![h]
    } else if s[0] > h {
        seq![s[0]] + spec_create(s.drop_first(), h)
    } else if s[0] == h {
        seq![h] + s.drop_first()
    } else {
        seq![h] + s
    }
}

/// The snapshot set after a rollback to `t`: every height above `t` is gone.
pub open spec fn spec_truncate_newer(s: Seq<u64>, t: u64) -> Seq<u64>
    decreases s.len(),
{
    if s.len() == 0 {
        s
    } else if s[0] > t {
        spec_truncate_newer(s.drop_first(), t)
    } else {
        s
    }
}

/// A create yields a strictly descending set that holds `h` together with
/// every height of the old set other than `h` itself.
pub proof fn lemma_create(s: Seq<u64>, h: u64)
    requires
        desc_sorted(s),
    ensures
        desc_sorted(spec_create(s, h)),
        forall|x: u64|
            #[trigger] spec_create(s, h).contains(x) <==> (x == h || (s.contains(x) && x != h)),
        spec_create(s, h).len() >= 1,
    decreases s.len(),
{
    let r = spec_create(s, h);
    if s.len() == 0 {
        assert forall|x: u64| r.contains(x) implies x == h by {}
        assert(r.contains(h)) by {
            assert(r[0] == h);
        }
    } else if s[0] > h {
        let d = s.drop_first();
        assert(desc_sorted(d));
        lemma_create(d, h);
        let rd = spec_create(d, h);
        assert(r == seq![s[0]] + rd);
        // order: s[0] is above h and above every element of d
        assert forall|i: int, j: int| 0 <= i < j < r.len() implies r[i] > r[j] by {
            if i == 0 {
                let x = r[j];
                assert(rd[j - 1] == x);
                assert(rd.contains(x));
                if x == h {
                    assert(s[0] > h);
                } else {
                    assert(d.contains(x));
                    let k = choose|k: int| 0 <= k < d.len() && d[k] == x;
                    assert(s[k + 1] == x);
                    assert(s[0] > x);
                }
            } else {
                assert(rd[i - 1] > rd[j - 1]);
            }
        }
        assert forall|x: u64| r.contains(x) implies (x == h || (s.contains(x) && x != h)) by {
            let j = choose|j: int| 0 <= j < r.len() && r[j] == x;
            if j == 0 {
                assert(s.contains(x)) by {
                    assert(s[0] == x);
                }
                assert(x != h);
            } else {
                assert(rd.contains(x)) by {
                    assert(rd[j - 1] == x);
                }
                if x != h {
                    assert(d.contains(x));
                    let k = choose|k: int| 0 <= k < d.len() && d[k] == x;
                    assert(s[k + 1] == x);
                    assert(s.contains(x));
                }
            }
        }
        assert forall|x: u64| (x == h || (s.contains(x) && x != h)) implies r.contains(x) by {
            if x == h {
                assert(rd.contains(h));
                let k = choose|k: int| 0 <= k < rd.len() && rd[k] == h;
                assert(r[k + 1] == h);
            } else {
                let k = choose|k: int| 0 <= k < s.len() && s[k] == x;
                if k == 0 {
                    assert(r[0] == x);
                } else {
                    assert(d[k - 1] == x);
                    assert(d.contains(x));
                    assert(rd.contains(x));
                    let m = choose|m: int| 0 <= m < rd.len() && rd[m] == x;
                    assert(r[m + 1] == x);
                }
            }
        }
    } else if s[0] == h {
        let d = s.drop_first();
        assert(r == seq![h] + d);
        assert forall|i: int, j: int| 0 <= i < j < r.len() implies r[i] > r[j] by {
            if i == 0 {
                assert(s[0] > s[j]);
                assert(r[j] == d[j - 1] == s[j]);
            } else {
                assert(s[i] > s[j]);
            }
        }
        assert forall|x: u64| r.contains(x) implies (x == h || (s.contains(x) && x != h)) by {
            let j = choose|j: int| 0 <= j < r.len() && r[j] == x;
            if j > 0 {
                assert(s[j] == x);
                assert(s.contains(x));
                assert(s[0] > s[j]);
            }
        }
        assert forall|x: u64| (x == h || (s.contains(x) && x != h)) implies r.contains(x) by {
            if x == h {
                assert(r[0] == h);
            } else {
                let k = choose|k: int| 0 <= k < s.len() && s[k] == x;
                assert(k > 0);
                assert(r[k] == x);
            }
        }
    } else {
        assert(r == seq![h] + s);
        assert forall|i: int, j: int| 0 <= i < j < r.len() implies r[i] > r[j] by {
            if i == 0 {
                assert(r[j] == s[j - 1]);
                assert(s[0] >= s[j - 1] && h > s[0]) by {
                    if j - 1 > 0 {
                        assert(s[0] > s[j - 1]);
                    }
                }
            } else {
                assert(s[i - 1] > s[j - 1]);
            }
        }
        assert forall|x: u64| r.contains(x) implies (x == h || (s.contains(x) && x != h)) by {
            let j = choose|j: int| 0 <= j < r.len() && r[j] == x;
            if j > 0 {
                assert(s[j - 1] == x);
                assert(s.contains(x));
                assert(h > s[0] && s[0] >= x) by {
                    if j - 1 > 0 {
                        assert(s[0] > s[j - 1]);
                    }
                }
            }
        }
        assert forall|x: u64| (x == h || (s.contains(x) && x != h)) implies r.contains(x) by {
            if x == h {
                assert(r[0] == h);
            } else {
                let k = choose|k: int| 0 <= k < s.len() && s[k] == x;
                assert(r[k + 1] == x);
            }
        }
    }
}

/// A rollback to `t` keeps exactly the heights at or below `t`, in order.
pub proof fn lemma_truncate_newer(s: Seq<u64>, t: u64)
    requires
        desc_sorted(s),
    ensures
        desc_sorted(spec_truncate_newer(s, t)),
        forall|x: u64|
            #[trigger] spec_truncate_newer(s, t).contains(x) <==> (s.contains(x) && x <= t),
        spec_truncate_newer(s, t).len() > 0 ==> spec_truncate_newer(s, t)[0] <= t,
    decreases s.len(),
{
    let r = spec_truncate_newer(s, t);
    if s.len() == 0 {
    } else if s[0] > t {
        let d = s.drop_first();
        assert(desc_sorted(d));
        lemma_truncate_newer(d, t);
        assert forall|x: u64| (s.contains(x) && x <= t) implies d.contains(x) by {
            let k = choose|k: int| 0 <= k < s.len() && s[k] == x;
            assert(k > 0);
            assert(d[k - 1] == x);
        }
        assert forall|x: u64| d.contains(x) implies s.contains(x) by {
            let k = choose|k: int| 0 <= k < d.len() && d[k] == x;
            assert(s[k + 1] == x);
        }
    } else {
        assert(r == s);
        assert forall|x: u64| s.contains(x) implies x <= t by {
            let k = choose|k: int| 0 <= k < s.len() && s[k] == x;
            if k > 0 {
                assert(s[0] > s[k]);
            }
        }
    }
}

/// The engine's record of the snapshot set: the retained heights, most
/// recent first.
pub struct SnapStore {
    heights: Vec<u64>,
}

impl View for SnapStore {
    type V = Seq<u64>;

    closed spec fn view(&self) -> Seq<u64> {
        self.heights@
    }
}

impl SnapStore {
    /// The record is well formed: heights strictly descending.
    pub open spec fn wf(&self) -> bool {
        desc_sorted(self@)
    }

    /// An empty record.
    pub fn new() -> (r: SnapStore)
        ensures
            r.wf(),
            r@ == Seq::<u64>::empty(),
    {
        SnapStore { heights: Vec::new() }
    }

    /// A record seeded from a descending list of heights, as a backend
    /// reports them.
    pub fn from_heights(heights: Vec<u64>) -> (r: SnapStore)
        requires
            desc_sorted(heights@),
        ensures
            r.wf(),
            r@ == heights@,
    {
        SnapStore { heights }
    }

    /// The number of retained snapshots.
    pub fn len(&self) -> (r: usize)
        ensures
            r == self@.len(),
    {
        self.heights.len()
    }

    /// The most recent height, if any snapshot is retained.
    pub fn newest(&self) -> (r: Option<u64>)
        ensures
            self@.len() == 0 ==> r == Option::<u64>::None,
            self@.len() > 0 ==> r == Some(self@[0]),
    {
        if self.heights.len() == 0 {
            None
        } else {
            Some(self.heights[0])
        }
    }

    /// Whether a snapshot at height `h` is retained.
    pub fn contains(&self, h: u64) -> (r: bool)
        ensures
            r == self@.contains(h),
    {
        let n = self.heights.len();
        let mut i: usize = 0;
        while i < n
            invariant
                0 <= i <= n,
                n == self@.len(),
                forall|j: int| 0 <= j < i ==> self@[j] != h,
                self.heights@ == self@,
            decreases n - i,
        {
            if self.heights[i] == h {
                assert(self@[i as int] == h);
                return true;
            }
            i = i + 1;
        }
        false
    }

    /// A copy of the retained heights, most recent first.
    pub fn heights(&self) -> (r: Vec<u64>)
        ensures
            r@ == self@,
    {
        let n = self.heights.len();
        let mut out: Vec<u64> = Vec::new();
        let mut i: usize = 0;
        while i < n
            invariant
                0 <= i <= n,
                n == self@.len(),
                self.heights@ == self@,
                out@ == self@.subrange(0, i as int),
            decreases n - i,
        {
            out.push(self.heights[i]);
            assert(out@ == self@.subrange(0, i + 1 as int));
            i = i + 1;
        }
        assert(out@ == self@) by {
            assert(self@.subrange(0, n as int) =~= self@);
        }
        out
    }

    /// Records a create at height `h`: any pre-existing snapshot at `h` is
    /// replaced, every other height is kept, and the order stays descending.
    pub fn create(&mut self, h: u64)
        requires
            old(self).wf(),
        ensures
            final(self).wf(),
            final(self)@ == spec_create(old(self)@, h),
    {
        let ghost s = self@;
        let n = self.heights.len();
        let mut out: Vec<u64> = Vec::new();
        let mut i: usize = 0;
        proof {
            assert(s.skip(0) =~= s);
            assert(out@ + spec_create(s, h) =~= spec_create(s, h));
            assert(out@ =~= s.subrange(0, 0));
        }
        while i < n && self.heights[i] > h
            invariant
                0 <= i <= n,
                n == s.len(),
                self.heights@ == s,
                spec_create(s, h) == out@ + spec_create(s.skip(i as int), h),
                forall|j: int| 0 <= j < i ==> s[j] > h,
                out@ == s.subrange(0, i as int),
            decreases n - i,
        {
            proof {
                assert(s.skip(i as int)[0] == s[i as int]);
                assert(s.skip(i as int).drop_first() =~= s.skip(i + 1 as int));
            }
            out.push(self.heights[i]);
            i = i + 1;
        }
        proof {
            if i < n {
                assert(s.skip(i as int)[0] == s[i as int]);
                assert(s.skip(i as int).drop_first() =~= s.skip(i + 1 as int));
            } else {
                assert(s.skip(i as int) =~= Seq::<u64>::empty());
            }
        }
        out.push(h);
        let mut j: usize = if i < n && self.heights[i] == h { i + 1 } else { i };
        proof {
            assert(spec_create(s, h) == out@ + s.skip(j as int)) by {
                if i < n {
                    if s[i as int] == h {
                        assert(spec_create(s.skip(i as int), h) == seq![h] + s.skip(
                            i as int,
                        ).drop_first());
                    } else {
                        assert(spec_create(s.skip(i as int), h) == seq![h] + s.skip(i as int));
                    }
                } else {
                    assert(spec_create(s.skip(i as int), h) =~= seq![h]);
                }
                assert(out@ + s.skip(j as int) =~= out@.subrange(0, out@.len() - 1) + (seq![h]
                    + s.skip(j as int)));
            }
        }
        while j < n
            invariant
                0 <= j <= n,
                n == s.len(),
                self.heights@ == s,
                spec_create(s, h) == out@ + s.skip(j as int),
            decreases n - j,
        {
            proof {
                assert(s.skip(j as int)[0] == s[j as int]);
                assert(s.skip(j as int).drop_first() =~= s.skip(j + 1 as int));
                assert(out@ + s.skip(j as int) =~= (out@ + seq![s[j as int]]) + s.skip(
                    j + 1 as int,
                ));
            }
            out.push(self.heights[j]);
            j = j + 1;
        }
        proof {
            assert(s.skip(n as int) =~= Seq::<u64>::empty());
            assert(out@ + s.skip(n as int) =~= out@);
            lemma_create(s, h);
        }
        self.heights = out;
    }

    /// Records a rollback to `t`: every height above `t` is removed.
    pub fn truncate_newer(&mut self, t: u64)
        requires
            old(self).wf(),
        ensures
            final(self).wf(),
            final(self)@ == spec_truncate_newer(old(self)@, t),
    {
        let ghost s = self@;
        let n = self.heights.len();
        let mut i: usize = 0;
        proof {
            assert(s.skip(0) =~= s);
        }
        while i < n && self.heights[i] > t
            invariant
                0 <= i <= n,
                n == s.len(),
                self.heights@ == s,
                spec_truncate_newer(s, t) == spec_truncate_newer(s.skip(i as int), t),
            decreases n - i,
        {
            proof {
                assert(s.skip(i as int)[0] == s[i as int]);
                assert(s.skip(i as int).drop_first() =~= s.skip(i + 1 as int));
            }
            i = i + 1;
        }
        proof {
            if i < n {
                assert(s.skip(i as int)[0] == s[i as int]);
                assert(spec_truncate_newer(s.skip(i as int), t) == s.skip(i as int));
            } else {
                assert(s.skip(i as int) =~= Seq::<u64>::empty());
            }
            lemma_truncate_newer(s, t);
        }
        let mut out: Vec<u64> = Vec::new();
        let mut j: usize = i;
        while j < n
            invariant
                i <= j <= n,
                n == s.len(),
                self.heights@ == s,
                out@ == s.subrange(i as int, j as int),
            decreases n - j,
        {
            out.push(self.heights[j]);
            assert(out@ =~= s.subrange(i as int, j + 1 as int));
            j = j + 1;
        }
        proof {
            assert(out@ =~= s.skip(i as int));
        }
        self.heights = out;
    }

    /// Keeps only the `k` most recent heights.
    pub fn retain_newest(&mut self, k: usize)
        requires
            old(self).wf(),
        ensures
            final(self).wf(),
            final(self)@ == old(self)@.take(if k <= old(self)@.len() {
                k as int
            } else {
                old(self)@.len() as int
            }),
    {
        let ghost s = self@;
        let n = self.heights.len();
        let m = if k <= n {
            k
        } else {
            n
        };
        let mut out: Vec<u64> = Vec::new();
        let mut i: usize = 0;
        while i < m
            invariant
                0 <= i <= m <= n,
                n == s.len(),
                self.heights@ == s,
                out@ == s.subrange(0, i as int),
            decreases m - i,
        {
            out.push(self.heights[i]);
            assert(out@ =~= s.subrange(0, i + 1 as int));
            i = i + 1;
        }
        self.heights = out;
    }

    /// Records the outcome of a pruning pass: the retained set becomes
    /// exactly `kept`, the heights the retention policy decided to keep.
    pub(crate) fn set_retained(&mut self, kept: Vec<u64>)
        requires
            desc_sorted(kept@),
        ensures
            final(self).wf(),
            final(self)@ == kept@,
    {
        self.heights = kept;
    }
}

} // verus!
