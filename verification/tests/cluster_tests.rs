use stitchery::cluster::{Cluster, Clustering};
use stitchery::convergence::{ConvergenceCounter, History, HISTORY_LEN};

#[test]
fn clustering_starts_with_one_pair() {
    let c = Clustering::new();
    assert_eq!(c.clusters.len(), 1);
    assert_eq!(c.clusters[0], Cluster { a: 0, b: 1 });
    assert_eq!(c.palette_len, 2);
    assert!(!c.collapsed);
}

#[test]
fn expand_below_cap_doubles_palette() {
    let mut c = Clustering::new();
    let r = c.expand(&vec![true], 3);
    // the split duplicates both entries of the only cluster
    assert_eq!(r.splits, vec![(0, 1)]);
    assert!(r.collapse.is_none());
    assert_eq!(c.clusters.len(), 2);
    assert_eq!(c.palette_len, 4);
    assert!(!c.collapsed);
    // the palette holds two entries per cluster
    assert_eq!(c.clusters[0], Cluster { a: 0, b: 2 });
    assert_eq!(c.clusters[1], Cluster { a: 1, b: 3 });
    // every cluster's second sibling is perturbed afterwards
    assert_eq!(r.perturb, vec![2, 3]);
}

#[test]
fn expand_without_drift_keeps_palette() {
    let mut c = Clustering::new();
    let r = c.expand(&vec![false], 3);
    assert!(r.splits.is_empty());
    assert!(r.collapse.is_none());
    assert_eq!(c.clusters.len(), 1);
    assert_eq!(c.palette_len, 2);
    assert_eq!(r.perturb, vec![1]);
}

#[test]
fn expand_at_cap_collapses_to_one_entry_per_cluster() {
    let mut c = Clustering::new();
    c.expand(&vec![true], 3);
    let r = c.expand(&vec![true, true], 3);
    assert_eq!(r.splits, vec![(0, 2), (1, 3)]);
    // four clusters reach the cap of three: collapse
    assert!(c.collapsed);
    assert_eq!(c.clusters.len(), 4);
    assert_eq!(c.palette_len, 4);
    let pairs = r.collapse.unwrap();
    assert_eq!(pairs, vec![(0, 4), (1, 6), (2, 5), (3, 7)]);
    for (i, cl) in c.clusters.iter().enumerate() {
        assert_eq!(*cl, Cluster { a: i, b: 0 });
    }
}

#[test]
fn split_at_cap_two_restores_palette_pairs() {
    // One cluster splits and the cap of two is reached at once. The merge
    // list pairs each entry with its own fresh copy, so a palette owner
    // that halves, copies, then averages per pair ends with the palette it
    // started from.
    let mut c = Clustering::new();
    let r = c.expand(&vec![true], 2);
    assert_eq!(r.splits, vec![(0, 1)]);
    assert!(c.collapsed);
    assert_eq!(c.clusters.len(), 2);
    assert_eq!(c.palette_len, 2);
    let pairs = r.collapse.unwrap();
    assert_eq!(pairs, vec![(0, 2), (1, 3)]);
    assert!(r.perturb.is_empty());
    // apply the instructions to a concrete palette of (value, weight)
    let mut palette: Vec<(i64, f64)> = vec![(0, 0.5), (10, 0.5)];
    for (a, b) in r.splits {
        palette[a].1 /= 2.0;
        palette[b].1 /= 2.0;
        let ca = palette[a];
        let cb = palette[b];
        palette.push(ca);
        palette.push(cb);
    }
    let mut merged = Vec::new();
    for (a, b) in pairs {
        merged.push(((palette[a].0 + palette[b].0) / 2, palette[a].1 + palette[b].1));
    }
    assert_eq!(merged, vec![(0, 0.5), (10, 0.5)]);
}

#[test]
fn history_evicts_oldest_when_full() {
    let mut h = History::new();
    for i in 0..HISTORY_LEN as u64 {
        assert_eq!(h.push(i), None);
    }
    assert_eq!(h.len(), HISTORY_LEN);
    assert_eq!(h.get(0), 0);
    let evicted = h.push(1000);
    assert_eq!(evicted, Some(0));
    assert_eq!(h.len(), HISTORY_LEN);
    assert_eq!(h.get(0), 1);
    assert_eq!(h.get(HISTORY_LEN - 1), 1000);
}

#[test]
fn counter_triggers_on_small_change() {
    let mut c = ConvergenceCounter::new();
    assert!(c.step(false, true));
    assert_eq!(c.variance_check_count, 0);
}

#[test]
fn counter_triggers_after_long_stable_streak() {
    let mut c = ConvergenceCounter::new();
    for _ in 0..HISTORY_LEN {
        assert!(!c.step(true, false));
    }
    assert_eq!(c.variance_check_count, HISTORY_LEN as u64);
    // the pass that pushes the streak past the window length fires
    assert!(c.step(true, false));
    assert_eq!(c.variance_check_count, 0);
}

#[test]
fn counter_resets_on_unstable_pass() {
    let mut c = ConvergenceCounter::new();
    c.step(true, false);
    c.step(true, false);
    assert_eq!(c.variance_check_count, 2);
    assert!(!c.step(false, false));
    assert_eq!(c.variance_check_count, 0);
}
