//! Bookkeeping of the annealing palette: the list of super-clusters, each a
//! pair of sibling palette entries, the binary splits that grow the palette
//! as the temperature drops, and the final collapse once the requested color
//! count is reached.
//!
//! The palette colors themselves are floating-point and live with the
//! caller; the structure here tracks only indices and sizes, and tells the
//! caller exactly which entries to halve, copy, average or perturb.

use vstd::prelude::*;

verus! {

/// A super-cluster: two palette indices holding sibling colors of one
/// parent. After the final collapse the second index is degenerate.
#[derive(Clone, Copy, Debug, PartialEq, Eq, Structural)]
pub struct Cluster {
    pub a: usize,
    pub b: usize,
}

/// The pairs of palette indices of the clusters selected by `flags`, in
/// cluster order: the entries the caller must halve and duplicate.
pub open spec fn split_pairs(cs: Seq<Cluster>, flags: Seq<bool>, i: int) -> Seq<(usize, usize)>
    decreases i,
{
    if i <= 0 {
        Seq::empty()
    } else {
        split_pairs(cs, flags, i - 1) + if flags[i - 1] {
            seq![(cs[i - 1].a, cs[i - 1].b)]
        } else {
            Seq::empty()
        }
    }
}

/// Number of clusters selected among the first `i` flags.
pub open spec fn split_count(flags: Seq<bool>, i: int) -> int
    decreases i,
{
    if i <= 0 {
        0
    } else {
        split_count(flags, i - 1) + if flags[i - 1] {
            1int
        } else {
            0int
        }
    }
}

/// The cluster structure of the optimizer: the current super-clusters, the
/// length of the palette they index, and whether the final collapse has
/// happened.
pub struct Clustering {
    pub clusters: Vec<Cluster>,
    pub palette_len: usize,
    pub collapsed: bool,
}

impl Clustering {
    /// Number of super-clusters.
    pub open spec fn k(self) -> int {
        self.clusters@.len() as int
    }

    /// Before the collapse, the clusters' index pairs are a partition of the
    /// palette into sibling pairs: the palette holds exactly two entries per
    /// cluster and no index appears twice. After the collapse each cluster
    /// is the degenerate pair `(i, 0)` and the palette holds one entry per
    /// cluster.
    pub open spec fn wf(self) -> bool {
        if self.collapsed {
            &&& self.palette_len == self.k()
            &&& forall|i: int|
                0 <= i < self.k() ==> #[trigger] self.clusters@[i] == Cluster {
                    a: i as usize,
                    b: 0,
                }
        } else {
            &&& self.palette_len == 2 * self.k()
            &&& forall|i: int|
                0 <= i < self.k() ==> (#[trigger] self.clusters@[i]).a < self.palette_len
                    && self.clusters@[i].b < self.palette_len && self.clusters@[i].a
                    != self.clusters@[i].b
            &&& forall|i: int, j: int|
                0 <= i < self.k() && 0 <= j < self.k() && i != j ==> (
                #[trigger] self.clusters@[i]).a != (#[trigger] self.clusters@[j]).a
                    && self.clusters@[i].a != self.clusters@[j].b && self.clusters@[i].b
                    != self.clusters@[j].a && self.clusters@[i].b != self.clusters@[j].b
        }
    }

    /// The initial structure: one cluster holding the two seed palette
    /// entries.
    pub fn new() -> (r: Clustering)
        ensures
            r.wf(),
            !r.collapsed,
            r.k() == 1,
            r.palette_len == 2,
            r.clusters@[0] == (Cluster { a: 0, b: 1 }),
    {
        let mut clusters: Vec<Cluster> = Vec::new();
        clusters.push(Cluster { a: 0, b: 1 });
        Clustering { clusters, palette_len: 2, collapsed: false }
    }

    /// The split pass of EXPAND. `split[i]` says whether cluster `i`'s two
    /// colors have drifted further apart than the cluster threshold; every
    /// selected cluster is promoted: its two palette entries are duplicated
    /// at the end of the palette (the returned pairs, in order, tell the
    /// caller which entries to halve and copy), the cluster keeps its first
    /// entry beside the copy of it, and a new cluster takes the second entry
    /// beside that one's copy.
    pub fn split_pass(&mut self, split: &Vec<bool>) -> (ops: Vec<(usize, usize)>)
        requires
            old(self).wf(),
            !old(self).collapsed,
            split@.len() == old(self).k(),
            old(self).palette_len + 2 * split@.len() <= usize::MAX,
        ensures
            final(self).wf(),
            !final(self).collapsed,
            ops@ == split_pairs(old(self).clusters@, split@, old(self).k()),
            final(self).k() == old(self).k() + ops@.len(),
            final(self).palette_len == old(self).palette_len + 2 * ops@.len(),
            final(self).palette_len == 2 * final(self).k(),
            forall|i: int|
                0 <= i < old(self).k() && !split@[i] ==> #[trigger] final(self).clusters@[i] == old(
                    self,
                ).clusters@[i],
            forall|i: int|
                0 <= i < old(self).k() && split@[i] ==> #[trigger] final(self).clusters@[i]
                    == (Cluster {
                    a: old(self).clusters@[i].a,
                    b: (old(self).palette_len + 2 * split_count(split@, i)) as usize,
                }),
            forall|t: int|
                0 <= t < ops@.len() ==> #[trigger] final(self).clusters@[old(self).k() + t]
                    == (Cluster { a: ops@[t].1, b: (old(self).palette_len + 2 * t + 1) as usize }),
    {
        let k0 = self.clusters.len();
        let mut ops: Vec<(usize, usize)> = Vec::new();
        let mut i: usize = 0;
        while i < k0
            invariant
                i <= k0,
                k0 == old(self).k(),
                split@.len() == k0,
                old(self).wf(),
                !old(self).collapsed,
                old(self).palette_len + 2 * split@.len() <= usize::MAX,
                !self.collapsed,
                self.clusters@.len() == k0 + ops@.len(),
                ops@.len() <= i,
                ops@ == split_pairs(old(self).clusters@, split@, i as int),
                ops@.len() == split_count(split@, i as int),
                self.palette_len == old(self).palette_len + 2 * ops@.len(),
                self.palette_len == 2 * self.clusters@.len(),
                // not-yet-visited suffix of the starting clusters
                forall|c: int|
                    i <= c < k0 ==> #[trigger] self.clusters@[c] == old(self).clusters@[c],
                // already-visited clusters
                forall|c: int|
                    0 <= c < i && !split@[c] ==> #[trigger] self.clusters@[c] == old(
                        self,
                    ).clusters@[c],
                forall|c: int|
                    0 <= c < i && split@[c] ==> #[trigger] self.clusters@[c] == (Cluster {
                        a: old(self).clusters@[c].a,
                        b: (old(self).palette_len + 2 * split_count(split@, c)) as usize,
                    }),
                forall|t: int|
                    0 <= t < ops@.len() ==> #[trigger] self.clusters@[k0 + t] == (Cluster {
                        a: ops@[t].1,
                        b: (old(self).palette_len + 2 * t + 1) as usize,
                    }),
                // well-formedness of the growing structure
                forall|c: int|
                    0 <= c < self.clusters@.len() ==> (#[trigger] self.clusters@[c]).a
                        < self.palette_len && self.clusters@[c].b < self.palette_len
                        && self.clusters@[c].a != self.clusters@[c].b,
                forall|c1: int, c2: int|
                    0 <= c1 < self.clusters@.len() && 0 <= c2 < self.clusters@.len() && c1 != c2
                        ==> (#[trigger] self.clusters@[c1]).a != (#[trigger] self.clusters@[c2]).a
                        && self.clusters@[c1].a != self.clusters@[c2].b && self.clusters@[c1].b
                        != self.clusters@[c2].a && self.clusters@[c1].b != self.clusters@[c2].b,
            decreases k0 - i,
        {
            if split[i] {
                let c = self.clusters[i];
                let fresh_a = self.palette_len;
                let fresh_b = self.palette_len + 1;
                ops.push((c.a, c.b));
                self.clusters[i] = Cluster { a: c.a, b: fresh_a };
                self.clusters.push(Cluster { a: c.b, b: fresh_b });
                self.palette_len = self.palette_len + 2;
                proof {
                    assert(ops@ =~= split_pairs(old(self).clusters@, split@, i + 1));
                }
            } else {
                proof {
                    assert(ops@ =~= split_pairs(old(self).clusters@, split@, i + 1));
                }
            }
            i = i + 1;
        }
        ops
    }

    /// The collapse of EXPAND, once the requested color count is reached:
    /// each cluster's sibling pair merges into a single palette entry (the
    /// returned pairs, in order, tell the caller which entries to average
    /// and add), and the clusters become degenerate.
    pub fn collapse(&mut self) -> (pairs: Vec<(usize, usize)>)
        requires
            old(self).wf(),
            !old(self).collapsed,
        ensures
            final(self).wf(),
            final(self).collapsed,
            final(self).k() == old(self).k(),
            final(self).palette_len == old(self).k(),
            pairs@.len() == old(self).k(),
            forall|i: int|
                0 <= i < old(self).k() ==> #[trigger] pairs@[i] == (
                old(self).clusters@[i].a,
                old(self).clusters@[i].b,
                ),
    {
        let k = self.clusters.len();
        let mut pairs: Vec<(usize, usize)> = Vec::new();
        let mut new_clusters: Vec<Cluster> = Vec::new();
        let mut i: usize = 0;
        while i < k
            invariant
                i <= k,
                k == old(self).k(),
                self.clusters@ == old(self).clusters@,
                pairs@.len() == i,
                new_clusters@.len() == i,
                forall|c: int|
                    0 <= c < i ==> #[trigger] pairs@[c] == (
                    old(self).clusters@[c].a,
                    old(self).clusters@[c].b,
                    ),
                forall|c: int|
                    0 <= c < i ==> #[trigger] new_clusters@[c] == (Cluster { a: c as usize, b: 0 }),
            decreases k - i,
        {
            let c = self.clusters[i];
            pairs.push((c.a, c.b));
            new_clusters.push(Cluster { a: i, b: 0 });
            i = i + 1;
        }
        self.clusters = new_clusters;
        self.palette_len = k;
        self.collapsed = true;
        pairs
    }

    /// The palette indices whose colors the caller must perturb after a
    /// split pass that did not reach the cap: the second sibling of every
    /// cluster, so the next annealing rounds can pull the siblings apart.
    pub fn perturb_targets(&self) -> (r: Vec<usize>)
        requires
            self.wf(),
            !self.collapsed,
        ensures
            r@.len() == self.k(),
            forall|i: int| 0 <= i < self.k() ==> #[trigger] r@[i] == self.clusters@[i].b,
            forall|i: int| 0 <= i < r@.len() ==> #[trigger] r@[i] < self.palette_len,
    {
        let mut r: Vec<usize> = Vec::new();
        let mut i: usize = 0;
        while i < self.clusters.len()
            invariant
                i <= self.k(),
                self.wf(),
                !self.collapsed,
                r@.len() == i,
                forall|c: int| 0 <= c < i ==> #[trigger] r@[c] == self.clusters@[c].b,
            decreases self.k() - i,
        {
            r.push(self.clusters[i].b);
            i = i + 1;
        }
        r
    }
}

/// What one EXPAND pass asks of the palette owner: `splits` lists the
/// sibling pairs to halve and duplicate, in order; then either `collapse`
/// lists the pairs to average into the final palette, or `perturb` lists the
/// entries to nudge apart for the next rounds.
pub struct ExpandResult {
    pub splits: Vec<(usize, usize)>,
    pub collapse: Option<Vec<(usize, usize)>>,
    pub perturb: Vec<usize>,
}

impl Clustering {
    /// One EXPAND pass. Every cluster whose flag is set splits; if the
    /// cluster count then reaches `k_max` the palette collapses to one entry
    /// per cluster, otherwise each cluster's second sibling is to be
    /// perturbed. The palette ends with two entries per cluster below the
    /// cap and exactly one entry per cluster at the cap. Either way the
    /// result names the palette entries to touch exactly: at the cap, pair
    /// `i` of the merge list is the index pair of the `i`-th post-split
    /// cluster; below the cap, entry `i` of the perturb list is the second
    /// sibling of cluster `i`.
    pub fn expand(&mut self, split: &Vec<bool>, k_max: usize) -> (r: ExpandResult)
        requires
            old(self).wf(),
            !old(self).collapsed,
            split@.len() == old(self).k(),
            old(self).k() < k_max,
            old(self).palette_len + 2 * split@.len() <= usize::MAX,
        ensures
            final(self).wf(),
            r.splits@ == split_pairs(old(self).clusters@, split@, old(self).k()),
            final(self).k() == old(self).k() + r.splits@.len(),
            final(self).k() >= k_max ==> {
                &&& final(self).collapsed
                &&& final(self).palette_len == final(self).k()
                &&& r.collapse is Some
                &&& r.perturb@.len() == 0
                &&& r.collapse->0@.len() == final(self).k()
                &&& forall|i: int|
                    0 <= i < old(self).k() && !split@[i] ==> #[trigger] r.collapse->0@[i] == (
                    old(self).clusters@[i].a,
                    old(self).clusters@[i].b,
                    )
                &&& forall|i: int|
                    0 <= i < old(self).k() && split@[i] ==> #[trigger] r.collapse->0@[i] == (
                    old(self).clusters@[i].a,
                    (old(self).palette_len + 2 * split_count(split@, i)) as usize,
                    )
                &&& forall|t: int|
                    0 <= t < r.splits@.len() ==> #[trigger] r.collapse->0@[old(self).k() + t] == (
                    r.splits@[t].1,
                    (old(self).palette_len + 2 * t + 1) as usize,
                    )
            },
            final(self).k() < k_max ==> {
                &&& !final(self).collapsed
                &&& final(self).palette_len == 2 * final(self).k()
                &&& r.collapse is None
                &&& r.perturb@.len() == final(self).k()
                &&& forall|i: int|
                    0 <= i < old(self).k() && !split@[i] ==> #[trigger] final(self).clusters@[i]
                        == old(self).clusters@[i]
                &&& forall|i: int|
                    0 <= i < old(self).k() && split@[i] ==> #[trigger] final(self).clusters@[i]
                        == (Cluster {
                        a: old(self).clusters@[i].a,
                        b: (old(self).palette_len + 2 * split_count(split@, i)) as usize,
                    })
                &&& forall|t: int|
                    0 <= t < r.splits@.len() ==> #[trigger] final(self).clusters@[old(self).k()
                        + t] == (Cluster {
                        a: r.splits@[t].1,
                        b: (old(self).palette_len + 2 * t + 1) as usize,
                    })
                &&& forall|i: int|
                    0 <= i < final(self).k() ==> #[trigger] r.perturb@[i]
                        == final(self).clusters@[i].b
            },
    {
        let ghost pre = *old(self);
        let splits = self.split_pass(split);
        let ghost mid = *self;
        if self.clusters.len() >= k_max {
            let pairs = self.collapse();
            proof {
                assert forall|i: int| 0 <= i < pre.k() && !split@[i] implies #[trigger] pairs@[i]
                    == (pre.clusters@[i].a, pre.clusters@[i].b) by {
                    assert(mid.clusters@[i] == pre.clusters@[i]);
                }
                assert forall|i: int| 0 <= i < pre.k() && split@[i] implies #[trigger] pairs@[i]
                    == (pre.clusters@[i].a, (pre.palette_len + 2 * split_count(split@, i)) as usize)
                    by {
                    assert(mid.clusters@[i] == (Cluster {
                        a: pre.clusters@[i].a,
                        b: (pre.palette_len + 2 * split_count(split@, i)) as usize,
                    }));
                }
                assert forall|t: int| 0 <= t < splits@.len() implies #[trigger] pairs@[pre.k() + t]
                    == (splits@[t].1, (pre.palette_len + 2 * t + 1) as usize) by {
                    assert(mid.clusters@[pre.k() + t] == (Cluster {
                        a: splits@[t].1,
                        b: (pre.palette_len + 2 * t + 1) as usize,
                    }));
                }
            }
            ExpandResult { splits, collapse: Some(pairs), perturb: Vec::new() }
        } else {
            let perturb = self.perturb_targets();
            ExpandResult { splits, collapse: None, perturb }
        }
    }
}

} // verus!
