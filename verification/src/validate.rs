//! Dataflow validation: a submission is accepted exactly when it names a
//! job, its executor ids are unique, every edge joins declared executors,
//! and the graph is acyclic. Acyclicity is specified by the existence of a
//! rank that strictly increases along every edge, and decided by repeated
//! removal of operators whose incoming edges are exhausted.

use vstd::prelude::*;
use crate::types::{CoordErrorKind, CoordException, Dataflow, DataflowView};

verus! {

/// Every operator carries a different executor id.
pub open spec fn unique_ids(d: DataflowView) -> bool {
    forall|i: int, j: int|
        0 <= i < j < d.nodes.len() ==> (#[trigger] d.nodes[i]).executor_id != (
        #[trigger] d.nodes[j]).executor_id
}

/// Some operator of the dataflow carries this executor id.
pub open spec fn declares_id(d: DataflowView, id: u32) -> bool {
    exists|i: int| 0 <= i < d.nodes.len() && (#[trigger] d.nodes[i]).executor_id == id
}

/// Every edge joins two declared executors.
pub open spec fn edges_declared(d: DataflowView) -> bool {
    forall|k: int|
        0 <= k < d.edges.len() ==> declares_id(d, (#[trigger] d.edges[k]).from_id) && declares_id(
            d,
            d.edges[k].to_id,
        )
}

/// The rank strictly increases along every edge.
pub open spec fn respects_edges(rank: Map<u32, int>, edges: Seq<crate::types::Edge>) -> bool {
    forall|k: int|
        0 <= k < edges.len() ==> rank.contains_key((#[trigger] edges[k]).from_id)
            && rank.contains_key(edges[k].to_id) && rank[edges[k].from_id] < rank[edges[k].to_id]
}

/// A graph is acyclic exactly when some rank increases along every edge.
pub open spec fn is_acyclic(edges: Seq<crate::types::Edge>) -> bool {
    exists|rank: Map<u32, int>| respects_edges(rank, edges)
}

/// What `validate` accepts.
pub open spec fn valid_dataflow(d: DataflowView) -> bool {
    &&& d.job_id is Some
    &&& unique_ids(d)
    &&& edges_declared(d)
    &&& is_acyclic(d.edges)
}

/// Operator `i` still has an incoming edge whose source is unranked.
spec fn blocked(d: DataflowView, rank: Seq<Option<usize>>, i: int) -> bool {
    exists|k: int, j: int|
        {
            &&& 0 <= k < d.edges.len()
            &&& 0 <= j < d.nodes.len()
            &&& (#[trigger] d.edges[k]).to_id == d.nodes[i].executor_id
            &&& (#[trigger] d.nodes[j]).executor_id == d.edges[k].from_id
            &&& rank[j] is None
        }
}

/// How many operators are still unranked.
spec fn count_none(s: Seq<Option<usize>>) -> int
    decreases s.len(),
{
    if s.len() == 0 {
        0
    } else {
        count_none(s.drop_last()) + if s.last() is None {
            1int
        } else {
            0int
        }
    }
}

proof fn lemma_count_none_nonneg(s: Seq<Option<usize>>)
    ensures
        count_none(s) >= 0,
    decreases s.len(),
{
    if s.len() > 0 {
        lemma_count_none_nonneg(s.drop_last());
    }
}

proof fn lemma_count_none_update(s: Seq<Option<usize>>, i: int, v: usize)
    requires
        0 <= i < s.len(),
        s[i] is None,
    ensures
        count_none(s.update(i, Some(v))) == count_none(s) - 1,
        count_none(s) >= 1,
    decreases s.len(),
{
    lemma_count_none_nonneg(s.drop_last());
    if i == s.len() - 1 {
        assert(s.update(i, Some(v)).drop_last() =~= s.drop_last());
        assert(s.update(i, Some(v)).last() is Some);
    } else {
        assert(s.update(i, Some(v)).drop_last() =~= s.drop_last().update(i, Some(v)));
        assert(s.update(i, Some(v)).last() == s.last());
        lemma_count_none_update(s.drop_last(), i, v);
    }
}

/// Assigned ranks stay below the next rank to hand out.
spec fn ranks_bounded(rank: Seq<Option<usize>>, next: usize) -> bool {
    forall|i: int|
        0 <= i < rank.len() && (#[trigger] rank[i]) is Some ==> rank[i]->Some_0 < next
}

/// Along every edge whose target is ranked, the source is ranked earlier.
spec fn ranks_ok(d: DataflowView, rank: Seq<Option<usize>>) -> bool {
    forall|k: int, ti: int, fi: int|
        #![trigger d.edges[k], d.nodes[ti], d.nodes[fi]]
        {
            (0 <= k < d.edges.len() && 0 <= ti < d.nodes.len() && 0 <= fi < d.nodes.len()
                && d.edges[k].to_id == d.nodes[ti].executor_id && d.edges[k].from_id
                == d.nodes[fi].executor_id && rank[ti] is Some) ==> rank[fi] is Some
                && rank[fi]->Some_0 < rank[ti]->Some_0
        }
}

/// The position of the operator declaring `id`.
spec fn node_index_of(d: DataflowView, id: u32) -> int {
    choose|i: int| 0 <= i < d.nodes.len() && (#[trigger] d.nodes[i]).executor_id == id
}

/// The rank as a map over executor ids, for ranked dataflows.
spec fn rank_map_of(d: DataflowView, rank: Seq<Option<usize>>) -> Map<u32, int> {
    Map::new(
        |id: u32| declares_id(d, id),
        |id: u32| rank[node_index_of(d, id)]->Some_0 as int,
    )
}

proof fn lemma_all_ranked_acyclic(d: DataflowView, rank: Seq<Option<usize>>)
    requires
        unique_ids(d),
        edges_declared(d),
        rank.len() == d.nodes.len(),
        ranks_ok(d, rank),
        forall|i: int| 0 <= i < rank.len() ==> (#[trigger] rank[i]) is Some,
    ensures
        is_acyclic(d.edges),
{
    let rm = rank_map_of(d, rank);
    assert forall|k: int| 0 <= k < d.edges.len() implies rm.contains_key(
        (#[trigger] d.edges[k]).from_id,
    ) && rm.contains_key(d.edges[k].to_id) && rm[d.edges[k].from_id] < rm[d.edges[k].to_id] by {
        let fid = d.edges[k].from_id;
        let tid = d.edges[k].to_id;
        assert(declares_id(d, fid) && declares_id(d, tid));
        let fi = node_index_of(d, fid);
        let ti = node_index_of(d, tid);
        assert(0 <= fi < d.nodes.len() && d.nodes[fi].executor_id == fid);
        assert(0 <= ti < d.nodes.len() && d.nodes[ti].executor_id == tid);
        assert(rank[fi] is Some && rank[fi]->Some_0 < rank[ti]->Some_0);
    }
    assert(respects_edges(rm, d.edges));
}

proof fn lemma_exists_min_unranked(g: spec_fn(int) -> int, unr: spec_fn(int) -> bool, n: int)
    requires
        exists|i: int| 0 <= i < n && #[trigger] unr(i),
    ensures
        exists|i: int|
            0 <= i < n && #[trigger] unr(i) && forall|j: int|
                0 <= j < n && #[trigger] unr(j) ==> g(i) <= g(j),
    decreases n,
{
    if n <= 0 {
    } else if exists|i: int| 0 <= i < n - 1 && #[trigger] unr(i) {
        lemma_exists_min_unranked(g, unr, n - 1);
        let m = choose|i: int|
            0 <= i < n - 1 && #[trigger] unr(i) && forall|j: int|
                0 <= j < n - 1 && #[trigger] unr(j) ==> g(i) <= g(j);
        if unr(n - 1) && g(n - 1) < g(m) {
            assert forall|j: int| 0 <= j < n && #[trigger] unr(j) implies g(n - 1) <= g(j) by {
                if j < n - 1 {
                    assert(g(m) <= g(j));
                }
            }
        } else {
            assert forall|j: int| 0 <= j < n && #[trigger] unr(j) implies g(m) <= g(j) by {
                if j == n - 1 {
                    assert(g(m) <= g(n - 1));
                }
            }
        }
    } else {
        let w = choose|i: int| 0 <= i < n && #[trigger] unr(i);
        assert(w == n - 1);
        assert forall|j: int| 0 <= j < n && #[trigger] unr(j) implies g(n - 1) <= g(j) by {
            assert(j == n - 1);
        }
    }
}

proof fn lemma_stalled_cyclic(d: DataflowView, rank: Seq<Option<usize>>)
    requires
        unique_ids(d),
        edges_declared(d),
        rank.len() == d.nodes.len(),
        exists|i: int| 0 <= i < rank.len() && (#[trigger] rank[i]) is None,
        forall|i: int| 0 <= i < rank.len() && (#[trigger] rank[i]) is None ==> blocked(d, rank, i),
    ensures
        !is_acyclic(d.edges),
{
    if is_acyclic(d.edges) {
        let rm = choose|rm: Map<u32, int>| respects_edges(rm, d.edges);
        let g = |i: int| rm[d.nodes[i].executor_id];
        let unr = |i: int| rank[i] is None;
        let i0 = choose|i: int| 0 <= i < rank.len() && (#[trigger] rank[i]) is None;
        assert(unr(i0));
        lemma_exists_min_unranked(g, unr, rank.len() as int);
        let m = choose|i: int|
            0 <= i < rank.len() as int && #[trigger] unr(i) && forall|j: int|
                0 <= j < rank.len() as int && #[trigger] unr(j) ==> g(i) <= g(j);
        assert(rank[m] is None);
        assert(blocked(d, rank, m));
        let (k, j): (int, int) = choose|k: int, j: int|
            {
                &&& 0 <= k < d.edges.len()
                &&& 0 <= j < d.nodes.len()
                &&& (#[trigger] d.edges[k]).to_id == d.nodes[m].executor_id
                &&& (#[trigger] d.nodes[j]).executor_id == d.edges[k].from_id
                &&& rank[j] is None
            };
        assert(rm[d.edges[k].from_id] < rm[d.edges[k].to_id]);
        assert(g(j) < g(m));
        assert(unr(j));
        assert(g(m) <= g(j));
        assert(false);
    }
}

impl Dataflow {
    /// Whether some operator declares `id`, and where.
    fn find_node_index(&self, id: u32) -> (r: Option<usize>)
        ensures
            match r {
                Option::Some(i) => i < self@.nodes.len() && self@.nodes[i as int].executor_id
                    == id,
                Option::None => !declares_id(self@, id),
            },
    {
        let mut i: usize = 0;
        while i < self.nodes.len()
            invariant
                i <= self.nodes@.len(),
                self@.nodes.len() == self.nodes@.len(),
                forall|j: int| 0 <= j < i ==> (#[trigger] self@.nodes[j]).executor_id != id,
            decreases self.nodes@.len() - i,
        {
            proof {
                assert(self@.nodes[i as int] == self.nodes@[i as int]@);
            }
            if self.nodes[i].executor_id == id {
                return Some(i);
            }
            i += 1;
        }
        None
    }

    fn check_unique_ids(&self) -> (r: bool)
        ensures
            r == unique_ids(self@),
    {
        let n = self.nodes.len();
        let mut i: usize = 0;
        while i < n
            invariant
                i <= n,
                n == self.nodes@.len(),
                self@.nodes.len() == n,
                forall|a: int, b: int|
                    0 <= a < b < n && a < i ==> (#[trigger] self@.nodes[a]).executor_id != (
                    #[trigger] self@.nodes[b]).executor_id,
            decreases n - i,
        {
            let mut j: usize = i + 1;
            while j < n
                invariant
                    i < j <= n,
                    n == self.nodes@.len(),
                    self@.nodes.len() == n,
                    forall|b: int|
                        i < b < j ==> (#[trigger] self@.nodes[b]).executor_id
                            != self@.nodes[i as int].executor_id,
                decreases n - j,
            {
                proof {
                    assert(self@.nodes[i as int] == self.nodes@[i as int]@);
                    assert(self@.nodes[j as int] == self.nodes@[j as int]@);
                }
                if self.nodes[i].executor_id == self.nodes[j].executor_id {
                    return false;
                }
                j += 1;
            }
            i += 1;
        }
        true
    }

    fn check_edges_declared(&self) -> (r: bool)
        ensures
            r == edges_declared(self@),
    {
        let mut k: usize = 0;
        while k < self.edges.len()
            invariant
                k <= self.edges@.len(),
                self@.edges.len() == self.edges@.len(),
                forall|k2: int|
                    0 <= k2 < k ==> declares_id(self@, (#[trigger] self@.edges[k2]).from_id)
                        && declares_id(self@, self@.edges[k2].to_id),
            decreases self.edges@.len() - k,
        {
            proof {
                assert(self@.edges[k as int] == self.edges@[k as int]);
            }
            if self.find_node_index(self.edges[k].from_id).is_none() {
                return false;
            }
            if self.find_node_index(self.edges[k].to_id).is_none() {
                return false;
            }
            k += 1;
        }
        true
    }

    /// Whether operator `i` still waits on an unranked predecessor.
    fn is_blocked(&self, rank: &Vec<Option<usize>>, i: usize) -> (r: bool)
        requires
            unique_ids(self@),
            edges_declared(self@),
            rank@.len() == self@.nodes.len(),
            i < self@.nodes.len(),
        ensures
            r == blocked(self@, rank@, i as int),
    {
        proof {
            assert(self@.nodes[i as int] == self.nodes@[i as int]@);
        }
        let my_id = self.nodes[i].executor_id;
        let mut k: usize = 0;
        while k < self.edges.len()
            invariant
                k <= self.edges@.len(),
                self@.edges.len() == self.edges@.len(),
                self@.nodes.len() == self.nodes@.len(),
                rank@.len() == self@.nodes.len(),
                i < self@.nodes.len(),
                my_id == self@.nodes[i as int].executor_id,
                unique_ids(self@),
                edges_declared(self@),
                forall|k2: int, j: int|
                    {
                        &&& 0 <= k2 < k
                        &&& 0 <= j < self@.nodes.len()
                        &&& (#[trigger] self@.edges[k2]).to_id == self@.nodes[i as int].executor_id
                        &&& (#[trigger] self@.nodes[j]).executor_id == self@.edges[k2].from_id
                    } ==> rank@[j] is Some,
            decreases self.edges@.len() - k,
        {
            proof {
                assert(self@.edges[k as int] == self.edges@[k as int]);
            }
            if self.edges[k].to_id == my_id {
                match self.find_node_index(self.edges[k].from_id) {
                    Option::Some(j) => {
                        if self.rank_is_none(rank, j) {
                            return true;
                        }
                        proof {
                            assert forall|j2: int|
                                0 <= j2 < self@.nodes.len() && (#[trigger] self@.nodes[j2]).executor_id
                                    == self@.edges[k as int].from_id implies rank@[j2] is Some by {
                                assert(j2 == j as int);
                            }
                        }
                    },
                    Option::None => {
                        proof {
                            assert(false);
                        }
                    },
                }
            }
            k += 1;
        }
        false
    }

    fn rank_is_none(&self, rank: &Vec<Option<usize>>, j: usize) -> (r: bool)
        requires
            j < rank@.len(),
        ensures
            r == (rank@[j as int] is None),
    {
        rank[j].is_none()
    }

    /// Whether the dataflow's edges admit a rank, decided by repeated
    /// removal of operators with no unranked predecessor.
    fn check_acyclic(&self) -> (r: bool)
        requires
            unique_ids(self@),
            edges_declared(self@),
        ensures
            r == is_acyclic(self@.edges),
    {
        let n = self.nodes.len();
        proof {
            assert(self@.nodes.len() == n);
        }
        let mut rank: Vec<Option<usize>> = Vec::new();
        let mut z: usize = 0;
        while z < n
            invariant
                z <= n,
                rank@.len() == z,
                count_none(rank@) == z,
                forall|i: int| 0 <= i < z ==> (#[trigger] rank@[i]) is None,
            decreases n - z,
        {
            let ghost r0 = rank@;
            rank.push(None);
            proof {
                assert(rank@.drop_last() =~= r0);
            }
            z += 1;
        }
        let mut next: usize = 0;
        let mut remaining: usize = n;
        let mut progress = true;
        while progress
            invariant
                unique_ids(self@),
                edges_declared(self@),
                self@.nodes.len() == n,
                self.nodes@.len() == n,
                self.edges@.len() == self@.edges.len(),
                rank@.len() == n,
                next + remaining == n,
                count_none(rank@) == remaining,
                ranks_bounded(rank@, next),
                ranks_ok(self@, rank@),
                !progress ==> forall|i2: int|
                    0 <= i2 < n && (#[trigger] rank@[i2]) is None ==> blocked(self@, rank@, i2),
            decreases remaining, (if progress { 1int } else { 0int }),
        {
            progress = false;
            let ghost remaining0 = remaining;
            let mut i: usize = 0;
            while i < n
                invariant
                    unique_ids(self@),
                    edges_declared(self@),
                    self@.nodes.len() == n,
                    self.nodes@.len() == n,
                    self.edges@.len() == self@.edges.len(),
                    i <= n,
                    rank@.len() == n,
                    next + remaining == n,
                    count_none(rank@) == remaining,
                    ranks_bounded(rank@, next),
                    ranks_ok(self@, rank@),
                    !progress ==> remaining == remaining0,
                    !progress ==> forall|i2: int|
                        0 <= i2 < i && (#[trigger] rank@[i2]) is None ==> blocked(
                            self@,
                            rank@,
                            i2,
                        ),
                    progress ==> remaining < remaining0,
                decreases n - i,
            {
                if self.rank_is_none(&rank, i) && !self.is_blocked(&rank, i) {
                    let ghost rank0 = rank@;
                    proof {
                        lemma_count_none_update(rank0, i as int, next);
                    }
                    let slot = &mut rank[i];
                    *slot = Some(next);
                    proof {
                        let rank1 = rank@;
                        assert(rank1 == rank0.update(i as int, Some(next)));
                        assert forall|k: int, ti: int, fi: int|
                            #![trigger self@.edges[k], self@.nodes[ti], self@.nodes[fi]]
                            (0 <= k < self@.edges.len() && 0 <= ti < n && 0 <= fi < n
                                && self@.edges[k].to_id == self@.nodes[ti].executor_id
                                && self@.edges[k].from_id == self@.nodes[fi].executor_id && rank1[ti]
                                is Some) implies rank1[fi] is Some && rank1[fi]->Some_0
                                < rank1[ti]->Some_0 by {
                            if ti == i as int {
                                assert(!blocked(self@, rank0, i as int));
                                assert(rank0[fi] is Some);
                                assert(fi != i as int);
                                assert(rank1[fi] == rank0[fi]);
                                assert(rank1[fi]->Some_0 < next);
                            } else {
                                assert(rank0[ti] == rank1[ti]);
                                assert(rank0[fi] is Some && rank0[fi]->Some_0
                                    < rank0[ti]->Some_0);
                                assert(fi != i as int);
                            }
                        }
                    }
                    next += 1;
                    remaining -= 1;
                    progress = true;
                }
                i += 1;
            }
        }
        let mut all_ranked = true;
        let mut i: usize = 0;
        while i < n
            invariant
                i <= n,
                rank@.len() == n,
                all_ranked ==> forall|j: int| 0 <= j < i ==> (#[trigger] rank@[j]) is Some,
                !all_ranked ==> exists|j: int| 0 <= j < n && (#[trigger] rank@[j]) is None,
            decreases n - i,
        {
            if self.rank_is_none(&rank, i) {
                all_ranked = false;
            }
            i += 1;
        }
        proof {
            if all_ranked {
                lemma_all_ranked_acyclic(self@, rank@);
            } else {
                lemma_stalled_cyclic(self@, rank@);
            }
        }
        all_ranked
    }

    /// Accepts the dataflow exactly when it names a job, executor ids are
    /// unique, every edge joins declared executors, and the graph is
    /// acyclic.
    pub fn validate(&self) -> (r: Result<(), CoordException>)
        ensures
            r is Ok <==> valid_dataflow(self@),
            r matches Err(e) ==> e.kind == CoordErrorKind::InvalidDataflow,
    {
        if self.job_id.is_none() {
            return Err(CoordException::of_kind(CoordErrorKind::InvalidDataflow));
        }
        if !self.check_unique_ids() {
            return Err(CoordException::of_kind(CoordErrorKind::InvalidDataflow));
        }
        if !self.check_edges_declared() {
            return Err(CoordException::of_kind(CoordErrorKind::InvalidDataflow));
        }
        if !self.check_acyclic() {
            return Err(CoordException::of_kind(CoordErrorKind::InvalidDataflow));
        }
        Ok(())
    }
}

} // verus!
