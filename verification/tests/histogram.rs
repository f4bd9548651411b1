use d4::histogram::{Histogram, Partition};
use d4::task::{SimpleTask, Task, TaskPartition};

#[test]
fn end_to_end_example() {
    let task = Histogram::with_bin_range("chr1", 0, 10, 0..5);
    let (chrom, begin, end) = task.region();
    assert_eq!(chrom, "chr1");
    assert_eq!(begin, 0);
    assert_eq!(end, 10);

    let mut p1 = Partition::new(0, 5, &task);
    assert!(p1.feed_range(0, 3, 2));
    assert!(p1.feed_range(3, 5, 10));
    let r1 = p1.into_result();
    assert_eq!(r1, (0, vec![0, 0, 3, 0, 0], 2));

    let mut p2 = Partition::new(5, 10, &task);
    assert!(p2.feed_range(5, 10, 2));
    let r2 = p2.into_result();
    assert_eq!(r2, (0, vec![0, 0, 5, 0, 0], 0));

    let total = task.combine(&vec![r1, r2]);
    assert_eq!(total, (0, vec![0, 0, 8, 0, 0], 2));
}

#[test]
fn below_counts_the_call_not_the_span() {
    let task = Histogram::with_bin_range("chr1", 0, 100, 10..15);
    let mut p = Partition::new(0, 100, &task);
    assert!(p.feed_range(0, 60, 3));
    let (below, histogram, above) = p.into_result();
    assert_eq!(below, 1);
    assert_eq!(histogram, vec![0, 0, 0, 0, 0]);
    assert_eq!(above, 0);
}

#[test]
fn above_adds_the_span_width() {
    let task = Histogram::with_bin_range("chr1", 0, 100, 10..15);
    let mut p = Partition::new(0, 100, &task);
    assert!(p.feed_range(20, 27, 15));
    assert!(p.feed_range(27, 30, 999));
    let (below, histogram, above) = p.into_result();
    assert_eq!(below, 0);
    assert_eq!(histogram, vec![0, 0, 0, 0, 0]);
    assert_eq!(above, 10);
}

#[test]
fn in_range_adds_the_span_width_to_its_bucket() {
    let task = Histogram::with_bin_range("chr1", 0, 100, 10..15);
    let mut p = Partition::new(0, 100, &task);
    assert!(p.feed_range(5, 9, 10));
    assert!(p.feed_range(9, 11, 14));
    assert!(p.feed_range(11, 12, 14));
    let (below, histogram, above) = p.into_result();
    assert_eq!(below, 0);
    assert_eq!(histogram, vec![4, 0, 0, 0, 3]);
    assert_eq!(above, 0);
}

#[test]
fn feed_is_a_unit_width_feed_range() {
    let task = Histogram::with_bin_range("chr1", 0, 100, 0..4);
    let mut single = Partition::new(0, 100, &task);
    assert!(single.feed(42, 2));
    let mut ranged = Partition::new(0, 100, &task);
    assert!(ranged.feed_range(42, 43, 2));
    assert_eq!(single.into_result(), ranged.into_result());
}

#[test]
fn combine_of_nothing_is_the_empty_output() {
    let task = Histogram::with_bin_range("chr1", 0, 10, 0..5);
    let total = task.combine(&vec![]);
    assert_eq!(total, (0, vec![], 0));
}

#[test]
fn combine_matches_feeding_one_undivided_partition() {
    let task = Histogram::with_bin_range("chr1", 0, 40, 0..3);
    let runs: [(u32, u32, i32); 6] =
        [(0, 7, 0), (7, 10, 2), (10, 20, -5), (20, 25, 7), (25, 30, 1), (30, 40, 2)];

    let mut whole = Partition::new(0, 40, &task);
    for (l, r, v) in runs {
        assert!(whole.feed_range(l, r, v));
    }
    let undivided = whole.into_result();

    let mut left = Partition::new(0, 20, &task);
    for (l, r, v) in &runs[..3] {
        assert!(left.feed_range(*l, *r, *v));
    }
    let mut right = Partition::new(20, 40, &task);
    for (l, r, v) in &runs[3..] {
        assert!(right.feed_range(*l, *r, *v));
    }
    let merged = task.combine(&vec![left.into_result(), right.into_result()]);
    assert_eq!(merged, undivided);
}

#[test]
fn scope_answers_the_sub_range() {
    let task = Histogram::with_bin_range("chrX", 100, 300, 0..2);
    let p = Partition::new(100, 200, &task);
    assert_eq!(p.scope(), (100, 200));
}

#[test]
fn default_task_has_a_thousand_buckets() {
    let task = <Histogram as SimpleTask>::new("chr2", 5, 50);
    let (chrom, begin, end) = task.region();
    assert_eq!(chrom, "chr2");
    assert_eq!(begin, 5);
    assert_eq!(end, 50);
    let p = Partition::new(5, 50, &task);
    let (below, histogram, above) = p.into_result();
    assert_eq!(below, 0);
    assert_eq!(histogram.len(), 1000);
    assert!(histogram.iter().all(|c| *c == 0));
    assert_eq!(above, 0);
}

#[test]
fn reversed_bin_range_allocates_no_bucket() {
    let task = Histogram::with_bin_range("chr1", 0, 10, 5..-5);
    let mut p = Partition::new(0, 10, &task);
    assert!(p.feed_range(0, 4, 100));
    let (below, histogram, above) = p.into_result();
    assert_eq!(below, 0);
    assert_eq!(histogram.len(), 0);
    assert_eq!(above, 4);
}
