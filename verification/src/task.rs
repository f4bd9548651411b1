//! The scatter-gather execution surface.
//!
//! A task covers one genomic region.  An external dispatcher splits the
//! region into disjoint sub-ranges, builds one partition per sub-range,
//! feeds each partition a sequence of run-length observations, finalizes
//! every partition into a partial result, and asks the task to combine the
//! partial results into the final output.  Each trait states its behaviour
//! through abstract spec functions that every implementation pins down.

use vstd::prelude::*;

verus! {

/// The per-sub-range accumulator of a task, fed observations by exactly one
/// worker and finalized exactly once; finalization consumes it, so feeding a
/// finalized partition cannot be written.
pub trait TaskPartition<V>: Sized {
    /// The task type this partition belongs to.
    type ParentType;

    /// The partial result a finalized partition hands back.
    type ResultType;

    /// Internal consistency of the accumulator.
    spec fn inv(&self) -> bool;

    /// When a partition may be constructed for the sub-range `[left, right)`.
    spec fn new_req(left: u32, right: u32, parent: &Self::ParentType) -> bool;

    /// What a freshly constructed partition for `[left, right)` looks like.
    spec fn fresh(left: u32, right: u32, parent: &Self::ParentType, p: &Self) -> bool;

    /// The sub-range this partition is responsible for.
    spec fn scope_spec(&self) -> (u32, u32);

    /// When one observation over `[left, right)` can be accepted.
    spec fn feed_req(&self, left: int, right: int, value: V) -> bool;

    /// How one observation over `[left, right)` changes the accumulator.
    spec fn feed_step(pre: &Self, left: int, right: int, value: V, post: &Self) -> bool;

    /// Whether the partition wants further observations after this one.
    spec fn feed_keep(pre: &Self, left: int, right: int, value: V) -> bool;

    /// How the finalized partial result reads off the accumulator.
    spec fn result_of(&self, r: &Self::ResultType) -> bool;

    /// Constructs the accumulator for the sub-range `[left, right)`.
    fn new(left: u32, right: u32, parent: &Self::ParentType) -> (r: Self)
        requires
            Self::new_req(left, right, parent),
        ensures
            r.inv(),
            Self::fresh(left, right, parent, &r),
            r.scope_spec() == (left, right),
    ;

    /// The sub-range this partition is responsible for.
    fn scope(&self) -> (r: (u32, u32))
        ensures
            r == self.scope_spec(),
    ;

    /// One observation at a single coordinate: a span of unit width.  The
    /// answer says whether the partition wants further observations.
    fn feed(&mut self, pos: u32, value: V) -> (keep: bool)
        requires
            old(self).inv(),
            old(self).feed_req(pos as int, pos + 1, value),
        ensures
            final(self).inv(),
            Self::feed_step(old(self), pos as int, pos + 1, value, final(self)),
            keep == Self::feed_keep(old(self), pos as int, pos + 1, value),
            final(self).scope_spec() == old(self).scope_spec(),
    ;

    /// One observation applying uniformly across the half-open span
    /// `[left, right)`.  The answer says whether the partition wants
    /// further observations.
    fn feed_range(&mut self, left: u32, right: u32, value: V) -> (keep: bool)
        requires
            old(self).inv(),
            old(self).feed_req(left as int, right as int, value),
        ensures
            final(self).inv(),
            Self::feed_step(old(self), left as int, right as int, value, final(self)),
            keep == Self::feed_keep(old(self), left as int, right as int, value),
            final(self).scope_spec() == old(self).scope_spec(),
    ;

    /// Finalizes the partition into its partial result, consuming it.
    fn into_result(self) -> (r: Self::ResultType)
        requires
            self.inv(),
        ensures
            self.result_of(&r),
    ;
}

/// A computation over one genomic region, polymorphic in the observation
/// value type `V`: it names its region, derives a partition per sub-range, and
/// merges the partial results.
pub trait Task<V> {
    /// The accumulator type built for each sub-range.
    type Partition: TaskPartition<V>;

    /// The final output of the merge.
    type Output;

    /// The whole region of interest, as `(chromosome, begin, end)`.
    spec fn region_spec(&self) -> (Seq<char>, u32, u32);

    /// When a collection of partial results can be merged.
    spec fn combine_req(
        &self,
        parts: Seq<<Self::Partition as TaskPartition<V>>::ResultType>,
    ) -> bool;

    /// How the final output reads off the collected partial results.
    spec fn combine_ok(
        &self,
        parts: Seq<<Self::Partition as TaskPartition<V>>::ResultType>,
        out: &Self::Output,
    ) -> bool;

    /// The whole region of interest.
    fn region(&self) -> (r: (&str, u32, u32))
        ensures
            (r.0@, r.1, r.2) == self.region_spec(),
    ;

    /// Merges all partitions' partial results into the final output; an
    /// empty collection merges to the task's canonical empty output.
    fn combine(&self, parts: &Vec<<Self::Partition as TaskPartition<V>>::ResultType>) -> (r:
        Self::Output)
        requires
            self.combine_req(parts@),
        ensures
            self.combine_ok(parts@, &r),
    ;
}

/// Construction of a task from a region alone, with every other setting at
/// its default.
pub trait SimpleTask: Sized {
    /// What the default-configured task for the region looks like.
    spec fn simple_new_spec(chrom: Seq<char>, begin: u32, end: u32, t: &Self) -> bool;

    /// Builds the task for `[begin, end)` of `chrom` with default settings.
    fn new(chrom: &str, begin: u32, end: u32) -> (r: Self)
        ensures
            Self::simple_new_spec(chrom@, begin, end, &r),
    ;
}

} // verus!
