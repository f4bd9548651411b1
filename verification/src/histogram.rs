//! The histogram task: a below/in-range/above bucketed count of depth
//! values across a region, accumulated run-length-aware.
//!
//! The accumulator is modelled abstractly as a triple of the `below`
//! counter, the bucket counts and the `above` counter, all as unbounded
//! integers; every contract of the concrete types speaks through that
//! model.

use vstd::prelude::*;

use core::ops::Range;

use crate::task::{SimpleTask, Task, TaskPartition};

verus! {

/// How one observation changes an accumulator state: a value below the
/// bucket range counts the call itself, once; a value at or above the end
/// of the range adds the span width to `above`; a value with a bucket of
/// its own adds the span width to that bucket.
pub open spec fn hist_step(s: (int, Seq<int>, int), base: int, width: int, value: int) -> (
    int,
    Seq<int>,
    int,
) {
    let off = value - base;
    if off < 0 {
        (s.0 + 1, s.1, s.2)
    } else if off >= s.1.len() {
        (s.0, s.1, s.2 + width)
    } else {
        (s.0, s.1.update(off, s.1[off] + width), s.2)
    }
}

/// A whole sequence of observations applied in order, each a span width
/// paired with its value.
pub open spec fn hist_runs(
    s: (int, Seq<int>, int),
    base: int,
    runs: Seq<(int, int)>,
) -> (int, Seq<int>, int)
    decreases runs.len(),
{
    if runs.len() == 0 {
        s
    } else {
        hist_step(hist_runs(s, base, runs.drop_last()), base, runs.last().0, runs.last().1)
    }
}

/// The state of a freshly constructed accumulator: every counter zero.
pub open spec fn hist_zero(len: nat) -> (int, Seq<int>, int) {
    (0, Seq::new(len, |i: int| 0), 0)
}

/// Bucket-wise sum of two accumulator states of the same layout.
pub open spec fn hist_add(a: (int, Seq<int>, int), b: (int, Seq<int>, int)) -> (int, Seq<int>, int) {
    (a.0 + b.0, Seq::new(a.1.len(), |i: int| a.1[i] + b.1[i]), a.2 + b.2)
}

proof fn lemma_runs_len(s: (int, Seq<int>, int), base: int, runs: Seq<(int, int)>)
    ensures
        hist_runs(s, base, runs).1.len() == s.1.len(),
    decreases runs.len(),
{
    if runs.len() > 0 {
        lemma_runs_len(s, base, runs.drop_last());
    }
}

proof fn lemma_step_add(
    a: (int, Seq<int>, int),
    b: (int, Seq<int>, int),
    base: int,
    width: int,
    value: int,
)
    requires
        a.1.len() == b.1.len(),
    ensures
        hist_step(hist_add(a, b), base, width, value) == hist_add(a, hist_step(b, base, width, value)),
{
    let left = hist_step(hist_add(a, b), base, width, value);
    let right = hist_add(a, hist_step(b, base, width, value));
    assert(left.1 =~= right.1);
}

proof fn lemma_runs_add(
    a: (int, Seq<int>, int),
    b: (int, Seq<int>, int),
    base: int,
    runs: Seq<(int, int)>,
)
    requires
        a.1.len() == b.1.len(),
    ensures
        hist_runs(hist_add(a, b), base, runs) == hist_add(a, hist_runs(b, base, runs)),
    decreases runs.len(),
{
    if runs.len() == 0 {
    } else {
        lemma_runs_add(a, b, base, runs.drop_last());
        lemma_runs_len(b, base, runs.drop_last());
        lemma_step_add(a, hist_runs(b, base, runs.drop_last()), base, runs.last().0, runs.last().1);
    }
}

proof fn lemma_runs_concat(
    s: (int, Seq<int>, int),
    base: int,
    first: Seq<(int, int)>,
    second: Seq<(int, int)>,
)
    ensures
        hist_runs(s, base, first + second) == hist_runs(hist_runs(s, base, first), base, second),
    decreases second.len(),
{
    if second.len() == 0 {
        assert(first + second =~= first);
    } else {
        assert((first + second).drop_last() =~= first + second.drop_last());
        lemma_runs_concat(s, base, first, second.drop_last());
        assert((first + second).last() == second.last());
    }
}

proof fn lemma_add_zero(s: (int, Seq<int>, int), len: nat)
    requires
        s.1.len() == len,
    ensures
        hist_add(s, hist_zero(len)) == s,
{
    assert(hist_add(s, hist_zero(len)).1 =~= s.1);
}

/// Merging is equivalent to processing undivided: feeding one fresh
/// accumulator the concatenation of two observation sequences gives
/// exactly the bucket-wise sum of feeding each sequence to its own fresh
/// accumulator.  Splitting work across partitions and combining their
/// results therefore loses nothing, whatever the split.
pub proof fn lemma_merge_equivalence(
    base: int,
    len: nat,
    first: Seq<(int, int)>,
    second: Seq<(int, int)>,
)
    ensures
        hist_runs(hist_zero(len), base, first + second) == hist_add(
            hist_runs(hist_zero(len), base, first),
            hist_runs(hist_zero(len), base, second),
        ),
{
    let x = hist_runs(hist_zero(len), base, first);
    lemma_runs_concat(hist_zero(len), base, first, second);
    lemma_runs_len(hist_zero(len), base, first);
    lemma_add_zero(x, len);
    lemma_runs_add(x, hist_zero(len), base, second);
}

/// The bucket-wise sum of feeding each observation sequence to a fresh
/// accumulator of its own.
pub open spec fn hist_sum(base: int, len: nat, runs: Seq<Seq<(int, int)>>) -> (int, Seq<int>, int)
    decreases runs.len(),
{
    if runs.len() == 0 {
        hist_zero(len)
    } else {
        hist_add(
            hist_sum(base, len, runs.drop_last()),
            hist_runs(hist_zero(len), base, runs.last()),
        )
    }
}

proof fn lemma_hist_sum_len(base: int, len: nat, runs: Seq<Seq<(int, int)>>)
    ensures
        hist_sum(base, len, runs).1.len() == len,
    decreases runs.len(),
{
    if runs.len() > 0 {
        lemma_hist_sum_len(base, len, runs.drop_last());
    }
}

/// The n-way merge law: however a workload of observation sequences is
/// split across partitions, feeding one fresh accumulator all of them in
/// order equals the bucket-wise sum of every partition's own result.
pub proof fn lemma_merge_equivalence_all(base: int, len: nat, runs: Seq<Seq<(int, int)>>)
    ensures
        hist_runs(hist_zero(len), base, runs.flatten_alt()) == hist_sum(base, len, runs),
    decreases runs.len(),
{
    if runs.len() == 0 {
        assert(runs.flatten_alt() =~= Seq::<(int, int)>::empty());
    } else {
        lemma_merge_equivalence_all(base, len, runs.drop_last());
        let head = runs.drop_last().flatten_alt();
        let tail = runs.last();
        assert(runs.flatten_alt() == head + tail);
        lemma_runs_concat(hist_zero(len), base, head, tail);
        let x = hist_sum(base, len, runs.drop_last());
        lemma_hist_sum_len(base, len, runs.drop_last());
        lemma_add_zero(x, len);
        lemma_runs_add(x, hist_zero(len), base, tail);
    }
}

/// The partial result of one partition, abstractly.
pub open spec fn result_state(p: (u32, Vec<u32>, u32)) -> (int, Seq<int>, int) {
    (p.0 as int, p.1@.map_values(|c: u32| c as int), p.2 as int)
}

/// Every counter of an accumulator state fits a 32-bit unsigned counter.
pub open spec fn fits_u32(s: (int, Seq<int>, int)) -> bool {
    &&& s.0 <= u32::MAX
    &&& s.2 <= u32::MAX
    &&& forall|j: int| 0 <= j < s.1.len() ==> #[trigger] s.1[j] <= u32::MAX
}

/// The bucket-wise sum of a sequence of partial results, on `len` buckets.
pub open spec fn combined(parts: Seq<(u32, Vec<u32>, u32)>, len: nat) -> (int, Seq<int>, int)
    decreases parts.len(),
{
    if parts.len() == 0 {
        hist_zero(len)
    } else {
        hist_add(combined(parts.drop_last(), len), result_state(parts.last()))
    }
}

/// The task: counts, across `[begin, end)` of a named sequence, how many
/// bases carry each depth value of `bin_range`, with scalar counters for
/// values falling outside it.
pub struct Histogram {
    chrom: String,
    begin: u32,
    end: u32,
    bin_start: i32,
    bin_end: i32,
}

impl Histogram {
    /// The bucket layout is representable: its width fits a 32-bit signed
    /// difference.
    pub closed spec fn wf(&self) -> bool {
        i32::MIN <= self.bin_end - self.bin_start <= i32::MAX
    }

    /// The first depth value with a bucket of its own.
    pub closed spec fn base_spec(&self) -> i32 {
        self.bin_start
    }

    /// How many buckets each derived partition allocates.
    pub closed spec fn bin_len(&self) -> int {
        if self.bin_start <= self.bin_end {
            self.bin_end - self.bin_start
        } else {
            0
        }
    }

    /// The named sequence of the region.
    pub closed spec fn chrom_spec(&self) -> Seq<char> {
        self.chrom@
    }

    /// The start of the region.
    pub closed spec fn begin_spec(&self) -> u32 {
        self.begin
    }

    /// The end of the region.
    pub closed spec fn end_spec(&self) -> u32 {
        self.end
    }

    /// Builds the task with an explicit bucket layout: one bucket per value
    /// of `bin_range`.
    pub fn with_bin_range(chrom: &str, begin: u32, end: u32, bin_range: Range<i32>) -> (r:
        Histogram)
        requires
            i32::MIN <= bin_range.end - bin_range.start <= i32::MAX,
        ensures
            r.wf(),
            r.chrom_spec() == chrom@,
            r.begin_spec() == begin,
            r.end_spec() == end,
            r.base_spec() == bin_range.start,
            r.bin_len() == if bin_range.start <= bin_range.end {
                bin_range.end - bin_range.start
            } else {
                0int
            },
    {
        Histogram {
            chrom: chrom.to_owned(),
            begin,
            end,
            bin_start: bin_range.start,
            bin_end: bin_range.end,
        }
    }
}

/// One partition's accumulator: the bucket counters for its sub-range of
/// the region.
pub struct Partition {
    range: (u32, u32),
    base: i32,
    histogram: Vec<u32>,
    below: u32,
    above: u32,
}

impl Partition {
    /// The accumulator state, abstractly.
    pub closed spec fn state(&self) -> (int, Seq<int>, int) {
        (self.below as int, self.histogram@.map_values(|c: u32| c as int), self.above as int)
    }

    /// The first depth value with a bucket of its own.
    pub closed spec fn base_spec(&self) -> i32 {
        self.base
    }
}

impl TaskPartition<i32> for Partition {
    type ParentType = Histogram;

    type ResultType = (u32, Vec<u32>, u32);

    open spec fn inv(&self) -> bool {
        self.state().1.len() <= i32::MAX
    }

    open spec fn new_req(left: u32, right: u32, parent: &Histogram) -> bool {
        parent.wf()
    }

    open spec fn fresh(left: u32, right: u32, parent: &Histogram, p: &Self) -> bool {
        &&& p.base_spec() == parent.base_spec()
        &&& p.state() == hist_zero(parent.bin_len() as nat)
    }

    closed spec fn scope_spec(&self) -> (u32, u32) {
        self.range
    }

    open spec fn feed_req(&self, left: int, right: int, value: i32) -> bool {
        let off = value - self.base_spec();
        &&& left <= right
        &&& i32::MIN <= off <= i32::MAX
        &&& (off < 0 ==> self.state().0 < u32::MAX)
        &&& (off >= self.state().1.len() ==> self.state().2 + (right - left) <= u32::MAX)
        &&& (0 <= off < self.state().1.len() ==> self.state().1[off] + (right - left) <= u32::MAX)
    }

    open spec fn feed_step(pre: &Self, left: int, right: int, value: i32, post: &Self) -> bool {
        &&& post.base_spec() == pre.base_spec()
        &&& post.state() == hist_step(pre.state(), pre.base_spec() as int, right - left, value as int)
    }

    open spec fn feed_keep(pre: &Self, left: int, right: int, value: i32) -> bool {
        true
    }

    open spec fn result_of(&self, r: &(u32, Vec<u32>, u32)) -> bool {
        result_state(*r) == self.state()
    }

    fn new(left: u32, right: u32, parent: &Histogram) -> (r: Self) {
        let base = parent.bin_start;
        let size: usize = if parent.bin_end > parent.bin_start {
            (parent.bin_end - parent.bin_start) as usize
        } else {
            0
        };
        let histogram: Vec<u32> = vec![0u32; size];
        let r = Partition { base, range: (left, right), histogram, below: 0, above: 0 };
        proof {
            assert(r.state().1 =~= hist_zero(parent.bin_len() as nat).1);
        }
        r
    }

    fn scope(&self) -> (r: (u32, u32)) {
        self.range
    }

    fn feed(&mut self, pos: u32, value: i32) -> (keep: bool) {
        self.feed_range(0, 1, value)
    }

    fn feed_range(&mut self, left: u32, right: u32, value: i32) -> (keep: bool) {
        let offset = value - self.base;
        if offset < 0 {
            self.below = self.below + 1;
            return true;
        }
        let len = self.histogram.len();
        if offset >= (len as i32) {
            self.above = self.above + (right - left);
            return true;
        }
        let idx = offset as usize;
        let cur = self.histogram[idx];
        self.histogram.set(idx, cur + (right - left));
        proof {
            assert(self.state().1 =~= hist_step(
                old(self).state(),
                old(self).base_spec() as int,
                right - left,
                value as int,
            ).1);
        }
        true
    }

    fn into_result(self) -> (r: (u32, Vec<u32>, u32)) {
        (self.below, self.histogram, self.above)
    }
}

impl Task<i32> for Histogram {
    type Partition = Partition;

    type Output = (u32, Vec<u32>, u32);

    open spec fn region_spec(&self) -> (Seq<char>, u32, u32) {
        (self.chrom_spec(), self.begin_spec(), self.end_spec())
    }

    open spec fn combine_req(&self, parts: Seq<(u32, Vec<u32>, u32)>) -> bool {
        let len = if parts.len() == 0 {
            0nat
        } else {
            parts[0].1@.len()
        };
        &&& forall|i: int| 0 <= i < parts.len() ==> (#[trigger] parts[i].1)@.len() == len
        &&& fits_u32(combined(parts, len))
    }

    open spec fn combine_ok(&self, parts: Seq<(u32, Vec<u32>, u32)>, out: &(u32, Vec<u32>, u32)) -> bool {
        let len = if parts.len() == 0 {
            0nat
        } else {
            parts[0].1@.len()
        };
        result_state(*out) == combined(parts, len)
    }

    fn region(&self) -> (r: (&str, u32, u32)) {
        (self.chrom.as_str(), self.begin, self.end)
    }

    fn combine(&self, parts: &Vec<(u32, Vec<u32>, u32)>) -> (r: (u32, Vec<u32>, u32)) {
        if parts.len() == 0 {
            let out = (0u32, Vec::<u32>::new(), 0u32);
            proof {
                assert(result_state(out).1 =~= hist_zero(0).1);
            }
            return out;
        }
        let ghost plen = parts@[0].1@.len();
        let len = parts[0].1.len();
        let mut histogram: Vec<u32> = vec![0u32; len];
        let mut below: u32 = 0;
        let mut above: u32 = 0;
        let mut k: usize = 0;
        proof {
            assert(parts@.take(0) =~= Seq::<(u32, Vec<u32>, u32)>::empty());
            assert(histogram@.map_values(|c: u32| c as int) =~= hist_zero(plen).1);
            assert(fits_u32(combined(parts@, plen)));
        }
        while k < parts.len()
            invariant
                k <= parts@.len(),
                0 < parts@.len(),
                plen == parts@[0].1@.len(),
                len == plen,
                histogram@.len() == len,
                fits_u32(combined(parts@, plen)),
                forall|i: int| 0 <= i < parts@.len() ==> (#[trigger] parts@[i].1)@.len() == plen,
                (below as int, histogram@.map_values(|c: u32| c as int), above as int) == combined(
                    parts@.take(k as int),
                    plen,
                ),
            decreases parts@.len() - k,
        {
            proof {
                assert(parts@.take(k + 1).drop_last() =~= parts@.take(k as int));
                assert(parts@.take(k + 1).last() == parts@[k as int]);
                lemma_combined_one_more(parts@, plen, k + 1);
                lemma_combined_len(parts@.take(k as int), plen);
            }
            let ghost pre = combined(parts@.take(k as int), plen);
            let ghost next = combined(parts@.take(k + 1), plen);
            let mut j: usize = 0;
            while j < len
                invariant
                    j <= len,
                    k < parts@.len(),
                    plen == parts@[0].1@.len(),
                    len == plen,
                    histogram@.len() == len,
                    fits_u32(combined(parts@, plen)),
                    forall|i: int| 0 <= i < parts@.len() ==> (#[trigger] parts@[i].1)@.len() == plen,
                    pre == combined(parts@.take(k as int), plen),
                    next == combined(parts@.take(k + 1), plen),
                    next == hist_add(pre, result_state(parts@[k as int])),
                    pre.1.len() == plen,
                    forall|t: int|
                        0 <= t < j ==> histogram@.map_values(|c: u32| c as int)[t] == next.1[t],
                    forall|t: int|
                        j <= t < len ==> histogram@.map_values(|c: u32| c as int)[t] == pre.1[t],
                decreases len - j,
            {
                let add = parts[k].1[j];
                let cur = histogram[j];
                proof {
                    assert(cur as int == pre.1[j as int]);
                    assert(next.1[j as int] == pre.1[j as int] + result_state(parts@[k as int]).1[j as int]);
                    assert(result_state(parts@[k as int]).1[j as int] == add as int);
                    lemma_combined_len(parts@, plen);
                    lemma_combined_prefix_all(parts@, plen, k + 1);
                    assert(combined(parts@.take(k + 1), plen).1[j as int] <= combined(
                        parts@,
                        plen,
                    ).1[j as int]);
                    assert(combined(parts@, plen).1[j as int] <= u32::MAX);
                    assert(cur + add <= u32::MAX);
                }
                histogram.set(j, cur + add);
                j = j + 1;
            }
            proof {
                assert(below as int == pre.0 && above as int == pre.2);
                assert(next.0 == pre.0 + parts@[k as int].0 as int);
                assert(next.2 == pre.2 + parts@[k as int].2 as int);
                lemma_combined_prefix_all(parts@, plen, k + 1);
            }
            let part_below = parts[k].0;
            let part_above = parts[k].2;
            below = below + part_below;
            above = above + part_above;
            k = k + 1;
            proof {
                assert(histogram@.map_values(|c: u32| c as int) =~= combined(
                    parts@.take(k as int),
                    plen,
                ).1);
            }
        }
        proof {
            assert(parts@.take(k as int) =~= parts@);
        }
        (below, histogram, above)
    }
}

proof fn lemma_combined_len(parts: Seq<(u32, Vec<u32>, u32)>, len: nat)
    ensures
        combined(parts, len).1.len() == len,
    decreases parts.len(),
{
    if parts.len() > 0 {
        lemma_combined_len(parts.drop_last(), len);
    }
}

proof fn lemma_combined_one_more(parts: Seq<(u32, Vec<u32>, u32)>, len: nat, k: int)
    requires
        1 <= k <= parts.len(),
    ensures
        combined(parts.take(k), len) == hist_add(
            combined(parts.take(k - 1), len),
            result_state(parts[k - 1]),
        ),
{
    assert(parts.take(k).drop_last() =~= parts.take(k - 1));
    assert(parts.take(k).last() == parts[k - 1]);
}

/// Every component of a prefix's sum is bounded by the same component of
/// the whole sum: the added terms are counts, never negative.
proof fn lemma_combined_prefix_all(parts: Seq<(u32, Vec<u32>, u32)>, len: nat, k: int)
    requires
        0 <= k <= parts.len(),
        forall|i: int| 0 <= i < parts.len() ==> (#[trigger] parts[i].1)@.len() == len,
    ensures
        combined(parts.take(k), len).0 <= combined(parts, len).0,
        combined(parts.take(k), len).2 <= combined(parts, len).2,
        forall|j: int|
            0 <= j < len ==> #[trigger] combined(parts.take(k), len).1[j] <= combined(
                parts,
                len,
            ).1[j],
    decreases parts.len() - k,
{
    if k == parts.len() {
        assert(parts.take(k) =~= parts);
    } else {
        lemma_combined_prefix_all(parts, len, k + 1);
        lemma_combined_len(parts.take(k), len);
        assert(parts.take(k + 1).drop_last() =~= parts.take(k));
        assert(parts.take(k + 1).last() == parts[k]);
        assert forall|j: int| 0 <= j < len implies #[trigger] combined(parts.take(k), len).1[j]
            <= combined(parts.take(k + 1), len).1[j] by {
            assert(combined(parts.take(k + 1), len).1[j] == combined(parts.take(k), len).1[j]
                + result_state(parts[k]).1[j]);
            assert(result_state(parts[k]).1[j] >= 0);
        }
    }
}

impl SimpleTask for Histogram {
    open spec fn simple_new_spec(chrom: Seq<char>, begin: u32, end: u32, t: &Self) -> bool {
        &&& t.wf()
        &&& t.chrom_spec() == chrom
        &&& t.begin_spec() == begin
        &&& t.end_spec() == end
        &&& t.base_spec() == 0
        &&& t.bin_len() == 1000
    }

    fn new(chrom: &str, begin: u32, end: u32) -> (r: Self) {
        Histogram { chrom: chrom.to_owned(), begin, end, bin_start: 0, bin_end: 1000 }
    }
}

} // verus!
