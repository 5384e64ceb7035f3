use vstd::prelude::*;

use vstd::set_lib::lemma_len_subset;

use crate::trigger::{TriggeredWatch, WatchName};

verus! {

/// The trigger graph holds the edge `source -> target`.
pub open spec fn has_edge(edges: Seq<(usize, usize)>, source: usize, target: usize) -> bool {
    exists|i: int| 0 <= i < edges.len() && edges[i] == (source, target)
}

/// `c` is a cycle of the graph: each node has an edge to the next one and
/// the last node has an edge back to the first.
pub open spec fn is_cycle(edges: Seq<(usize, usize)>, c: Seq<usize>) -> bool {
    &&& c.len() > 0
    &&& forall|k: int| 0 <= k < c.len() - 1 ==> has_edge(edges, #[trigger] c[k], c[k + 1])
    &&& has_edge(edges, c.last(), c[0])
}

/// Edges are ordered by source, then by target.
pub open spec fn edge_lt(a: (usize, usize), b: (usize, usize)) -> bool {
    a.0 < b.0 || (a.0 == b.0 && a.1 < b.1)
}

/// The edges are in strictly ascending order, so each appears once.
pub open spec fn sorted_edges(edges: Seq<(usize, usize)>) -> bool {
    forall|i: int, j: int| 0 <= i < j < edges.len() ==> edge_lt(#[trigger] edges[i], #[trigger] edges[j])
}

/// The frame entry `t` records the edge `source -> target`: the watch
/// `source` notified a value that `target` was subscribed to.
pub open spec fn records_edge(t: TriggeredWatch, source: usize, target: usize) -> bool {
    t.reason.source_watch == Some(source) && t.watch.watch == target
}

/// What went wrong when an update ran out of frames: the watches that were
/// still due to run, with their names, and a cycle of watches that trigger
/// each other when one was found in the last frames.
pub struct CycleReport {
    pub watches: Vec<usize>,
    pub names: Vec<WatchName>,
    pub cycle: Vec<usize>,
}

/// The trigger edges seen in the last frames before the frame limit ran out.
pub struct CycleDiagnostic {
    edges: Vec<(usize, usize)>,
}

impl View for CycleDiagnostic {
    type V = Seq<(usize, usize)>;

    closed spec fn view(&self) -> Seq<(usize, usize)> {
        self.edges@
    }
}

impl CycleDiagnostic {
    /// A diagnostic with no edge.
    pub fn new() -> (r: Self)
        ensures
            r@ == Seq::<(usize, usize)>::empty(),
    {
        CycleDiagnostic { edges: Vec::new() }
    }

    /// The first position whose edge is not below `edge`.
    fn lower_bound(&self, edge: (usize, usize)) -> (p: usize)
        requires
            sorted_edges(self@),
        ensures
            p <= self@.len(),
            forall|i: int| 0 <= i < p ==> edge_lt(#[trigger] self@[i], edge),
            forall|i: int| p <= i < self@.len() ==> !edge_lt(#[trigger] self@[i], edge),
    {
        let mut i: usize = 0;
        while i < self.edges.len()
            invariant
                i <= self@.len(),
                sorted_edges(self@),
                forall|j: int| 0 <= j < i ==> edge_lt(#[trigger] self@[j], edge),
            decreases self.edges.len() - i,
        {
            let e = self.edges[i];
            if !(e.0 < edge.0 || (e.0 == edge.0 && e.1 < edge.1)) {
                proof {
                    assert forall|j: int| i <= j < self@.len() implies !edge_lt(#[trigger] self@[j], edge) by {
                        if j > i {
                            assert(edge_lt(self@[i as int], self@[j]));
                        }
                    }
                }
                return i;
            }
            i = i + 1;
        }
        i
    }

    /// Records the edges of a frame: for each entry triggered from inside a
    /// watch, the edge from that watch to the triggered one. Each edge is
    /// kept once, and the edges stay in ascending order.
    pub fn track_frame(&mut self, frame: &Vec<TriggeredWatch>)
        requires
            sorted_edges(old(self)@),
        ensures
            sorted_edges(final(self)@),
            forall|a: usize, b: usize|
                #[trigger] has_edge(final(self)@, a, b) <==> has_edge(old(self)@, a, b) || exists|k: int|
                    0 <= k < frame@.len() && records_edge(frame@[k], a, b),
    {
        let mut k: usize = 0;
        while k < frame.len()
            invariant
                k <= frame@.len(),
                sorted_edges(self@),
                forall|a: usize, b: usize|
                    #[trigger] has_edge(self@, a, b) <==> has_edge(old(self)@, a, b) || exists|j: int|
                        0 <= j < k && records_edge(frame@[j], a, b),
            decreases frame.len() - k,
        {
            let item = frame[k];
            let ghost before = self@;
            let ghost mut pos: int = 0;
            let ghost mut inserted = false;
            if let Some(source) = item.reason.source_watch {
                let edge = (source, item.watch.watch);
                let p = self.lower_bound(edge);
                let present = p < self.edges.len() && self.edges[p].0 == edge.0 && self.edges[p].1 == edge.1;
                if !present {
                    proof {
                        assert forall|i: int| 0 <= i < before.len() implies before[i] != edge by {
                            if i > p {
                                assert(edge_lt(before[p as int], before[i]));
                            }
                        }
                    }
                    self.edges.insert(p, edge);
                    proof {
                        pos = p as int;
                        inserted = true;
                        assert forall|i: int, j: int| 0 <= i < j < self@.len() implies edge_lt(
                            #[trigger] self@[i],
                            #[trigger] self@[j],
                        ) by {
                            if j < p {
                                assert(self@[i] == before[i] && self@[j] == before[j]);
                            } else if j == p {
                                assert(self@[i] == before[i]);
                            } else if i < p {
                                assert(self@[i] == before[i] && self@[j] == before[j - 1]);
                            } else if i == p {
                                assert(self@[j] == before[j - 1]);
                            } else {
                                assert(self@[i] == before[i - 1] && self@[j] == before[j - 1]);
                            }
                        }
                    }
                } else {
                    assert(self@[p as int] == edge);
                }
            }
            proof {
                assert forall|a: usize, b: usize|
                    #[trigger] has_edge(self@, a, b) <==> has_edge(old(self)@, a, b) || exists|j: int|
                        0 <= j < k + 1 && records_edge(frame@[j], a, b) by {
                    if inserted {
                        assert(self@ == before.insert(pos, self@[pos]));
                    } else {
                        assert(self@ == before);
                    }
                    if has_edge(self@, a, b) && !has_edge(before, a, b) {
                        let i = choose|i: int| 0 <= i < self@.len() && self@[i] == (a, b);
                        assert(inserted);
                        if i < pos {
                            assert(self@[i] == before[i]);
                        } else if i > pos {
                            assert(self@[i] == before[i - 1]);
                        }
                        assert(records_edge(frame@[k as int], a, b));
                    }
                    if has_edge(before, a, b) {
                        let i = choose|i: int| 0 <= i < before.len() && before[i] == (a, b);
                        if inserted {
                            if i < pos {
                                assert(self@[i] == (a, b));
                            } else {
                                assert(self@[i + 1] == (a, b));
                            }
                        } else {
                            assert(self@[i] == (a, b));
                        }
                    }
                    if exists|j: int| 0 <= j < k + 1 && records_edge(frame@[j], a, b) {
                        let j = choose|j: int| 0 <= j < k + 1 && records_edge(frame@[j], a, b);
                        if j == k && !has_edge(before, a, b) {
                            if inserted {
                                assert(self@[pos] == (a, b));
                            } else {
                                assert(false);
                            }
                        }
                    }
                }
            }
            k = k + 1;
        }
    }

    /// An alive edge leaving `source`, if any: its index.
    fn alive_out(&self, alive: &Vec<bool>, source: usize) -> (r: Option<usize>)
        requires
            alive@.len() == self@.len(),
        ensures
            r matches Some(j) ==> j < self@.len() && alive@[j as int] && self@[j as int].0 == source,
            r is None ==> forall|j: int|
                0 <= j < self@.len() && #[trigger] alive@[j] ==> self@[j].0 != source,
    {
        let mut i: usize = 0;
        while i < self.edges.len()
            invariant
                i <= self@.len(),
                alive@.len() == self@.len(),
                forall|j: int| 0 <= j < i && #[trigger] alive@[j] ==> self@[j].0 != source,
            decreases self.edges.len() - i,
        {
            if alive[i] && self.edges[i].0 == source {
                return Some(i);
            }
            i = i + 1;
        }
        None
    }

    /// Looks for a cycle of the trigger graph. Edges whose target has no
    /// edge left leaving it are dropped until none is; no edge of a cycle
    /// is ever dropped, so when none is left the graph has no cycle.
    /// Otherwise every edge left leads to a node with an edge left, and a
    /// walk along them from any edge left closes a cycle, which is
    /// returned.
    pub fn find_cycle(&self) -> (r: Vec<usize>)
        ensures
            r@.len() > 0 ==> is_cycle(self@, r@),
            r@.len() == 0 ==> forall|c: Seq<usize>| !is_cycle(self@, c),
            r@.no_duplicates(),
    {
        let n = self.edges.len();
        let mut alive: Vec<bool> = Vec::new();
        let mut i: usize = 0;
        while i < n
            invariant
                i <= n,
                n == self@.len(),
                alive@.len() == i,
                forall|j: int| 0 <= j < i ==> alive@[j],
            decreases n - i,
        {
            alive.push(true);
            i = i + 1;
        }
        proof {
            assert forall|c: Seq<usize>, k: int|
                is_cycle(self@, c) && 0 <= k < c.len() implies #[trigger] live_edge(
                    self@,
                    alive@,
                    c[k],
                    cycle_next(c, k),
                ) by {
                lemma_cycle_edge(self@, c, k);
                let j = choose|j: int| 0 <= j < self@.len() && self@[j] == (c[k], cycle_next(c, k));
                assert(alive@[j]);
            }
        }
        let mut go = true;
        while go
            invariant
                n == self@.len(),
                alive@.len() == n,
                keeps_cycles(self@, alive@),
                !go ==> settled(self@, alive@),
            decreases count_alive(alive@) + if go { 1nat } else { 0nat },
        {
            let ghost start = alive@;
            let mut removed = false;
            let mut j: usize = 0;
            while j < n
                invariant
                    n == self@.len(),
                    alive@.len() == n,
                    j <= n,
                    keeps_cycles(self@, alive@),
                    !removed ==> alive@ == start,
                    removed ==> count_alive(alive@) < count_alive(start),
                    !removed ==> forall|m: int|
                        0 <= m < j && #[trigger] alive@[m] ==> exists|q: int|
                            0 <= q < n && alive@[q] && self@[q].0 == self@[m].1,
                decreases n - j,
            {
                if alive[j] {
                    let t = self.edges[j].1;
                    match self.alive_out(&alive, t) {
                        Some(q) => {
                            proof {
                                if !removed {
                                    assert forall|m: int|
                                        0 <= m < j + 1 && #[trigger] alive@[m] implies exists|q2: int|
                                            0 <= q2 < n && alive@[q2] && self@[q2].0 == self@[m].1 by {
                                        if m == j {
                                            assert(alive@[q as int] && self@[q as int].0 == self@[m].1);
                                        }
                                    }
                                }
                            }
                        },
                        None => {
                            let ghost before = alive@;
                            proof {
                                lemma_count_drop(before, j as int);
                            }
                            alive.set(j, false);
                            proof {
                                lemma_drop_dead_edge(self@, before, j as int);
                            }
                            removed = true;
                        },
                    }
                } else {
                    proof {
                        if !removed {
                            assert forall|m: int|
                                0 <= m < j + 1 && #[trigger] alive@[m] implies exists|q2: int|
                                    0 <= q2 < n && alive@[q2] && self@[q2].0 == self@[m].1 by {
                                if m < j {
                                }
                            }
                        }
                    }
                }
                j = j + 1;
            }
            go = removed;
        }
        let mut j0: usize = 0;
        while j0 < n && !alive[j0]
            invariant
                j0 <= n,
                n == self@.len(),
                alive@.len() == n,
                forall|m: int| 0 <= m < j0 ==> !alive@[m],
            decreases n - j0,
        {
            j0 = j0 + 1;
        }
        if j0 == n {
            proof {
                assert forall|c: Seq<usize>| !is_cycle(self@, c) by {
                    if is_cycle(self@, c) {
                        assert(live_edge(self@, alive@, c[0], cycle_next(c, 0)));
                    }
                }
            }
            return Vec::new();
        }
        let a = self.edges[j0].0;
        let b = self.edges[j0].1;
        if a == b {
            let mut single: Vec<usize> = Vec::new();
            single.push(a);
            proof {
                assert(self@[j0 as int] == (a, a));
                assert(single@.last() == a && single@[0] == a);
            }
            return single;
        }
        let mut path: Vec<usize> = Vec::new();
        path.push(a);
        path.push(b);
        let mut last_edge: usize = j0;
        proof {
            assert(self@[j0 as int] == (path@[0], path@[1]));
            assert(is_target(self@, path@[1]));
            lemma_path_bound(self@, path@.drop_first());
        }
        while path.len() - 1 <= n
            invariant
                n == self@.len(),
                alive@.len() == n,
                settled(self@, alive@),
                path@.len() >= 2,
                path@.len() - 1 <= n,
                path@.no_duplicates(),
                forall|k: int| 0 <= k < path@.len() - 1 ==> has_edge(self@, #[trigger] path@[k], path@[k + 1]),
                forall|k: int| 1 <= k < path@.len() ==> is_target(self@, #[trigger] path@[k]),
                last_edge < n,
                alive@[last_edge as int],
                self@[last_edge as int].1 == path@.last(),
            decreases n + 1 - path@.len(),
        {
            let t = path[path.len() - 1];
            let q = match self.alive_out(&alive, t) {
                Some(q) => q,
                None => {
                    proof {
                        assert(alive@[last_edge as int]);
                    }
                    return Vec::new();
                },
            };
            let x = self.edges[q].1;
            proof {
                assert(self@[q as int] == (t, x));
            }
            let mut i: usize = 0;
            while i < path.len()
                invariant
                    i <= path@.len(),
                    forall|m: int| 0 <= m < i ==> path@[m] != x,
                ensures
                    i <= path@.len(),
                    i < path@.len() ==> path@[i as int] == x,
                decreases path.len() - i,
            {
                if path[i] == x {
                    break;
                }
                i = i + 1;
            }
            if i < path.len() {
                let mut cycle: Vec<usize> = Vec::new();
                let mut k: usize = i;
                while k < path.len()
                    invariant
                        i <= k <= path@.len(),
                        cycle@ == path@.subrange(i as int, k as int),
                    decreases path.len() - k,
                {
                    cycle.push(path[k]);
                    k = k + 1;
                }
                proof {
                    assert(cycle@ == path@.subrange(i as int, path@.len() as int));
                    assert forall|m: int| 0 <= m < cycle@.len() - 1 implies has_edge(
                        self@,
                        #[trigger] cycle@[m],
                        cycle@[m + 1],
                    ) by {
                        assert(cycle@[m] == path@[i + m]);
                        assert(cycle@[m + 1] == path@[i + m + 1]);
                    }
                    assert(cycle@.last() == t);
                    assert(cycle@[0] == x);
                    assert forall|m1: int, m2: int|
                        0 <= m1 < cycle@.len() && 0 <= m2 < cycle@.len() && m1 != m2 implies cycle@[m1]
                        != cycle@[m2] by {
                        assert(cycle@[m1] == path@[i + m1]);
                        assert(cycle@[m2] == path@[i + m2]);
                    }
                }
                return cycle;
            }
            let ghost old_path = path@;
            path.push(x);
            last_edge = q;
            proof {
                assert forall|m1: int, m2: int|
                    0 <= m1 < path@.len() && 0 <= m2 < path@.len() && m1 != m2 implies path@[m1]
                    != path@[m2] by {
                    if m1 < old_path.len() && m2 < old_path.len() {
                        assert(path@[m1] == old_path[m1]);
                        assert(path@[m2] == old_path[m2]);
                    }
                }
                assert forall|k: int| 0 <= k < path@.len() - 1 implies has_edge(
                    self@,
                    #[trigger] path@[k],
                    path@[k + 1],
                ) by {
                    if k == path@.len() - 2 {
                        assert(path@[k] == t);
                        assert(path@[k + 1] == x);
                    } else {
                        assert(path@[k] == old_path[k]);
                        assert(path@[k + 1] == old_path[k + 1]);
                    }
                }
                assert(self@[q as int].1 == x);
                assert forall|k: int| 1 <= k < path@.len() implies is_target(self@, #[trigger] path@[k]) by {
                    if k < old_path.len() {
                        assert(path@[k] == old_path[k]);
                    } else {
                        assert(self@[q as int].1 == path@[k]);
                    }
                }
                lemma_path_bound(self@, path@.drop_first());
            }
        }
        Vec::new()
    }
}

/// The number of positions still marked alive.
pub open spec fn count_alive(s: Seq<bool>) -> nat
    decreases s.len(),
{
    if s.len() == 0 {
        0
    } else {
        count_alive(s.drop_last()) + if s.last() {
            1nat
        } else {
            0nat
        }
    }
}

/// `x` is the target of some edge.
pub open spec fn is_target(edges: Seq<(usize, usize)>, x: usize) -> bool {
    exists|i: int| 0 <= i < edges.len() && edges[i].1 == x
}

proof fn lemma_count_drop(s: Seq<bool>, j: int)
    requires
        0 <= j < s.len(),
        s[j],
    ensures
        count_alive(s.update(j, false)) + 1 == count_alive(s),
    decreases s.len(),
{
    let u = s.update(j, false);
    if j == s.len() - 1 {
        assert(u.drop_last() =~= s.drop_last());
    } else {
        lemma_count_drop(s.drop_last(), j);
        assert(u.drop_last() =~= s.drop_last().update(j, false));
    }
}

/// Dropping an alive edge whose target has no alive edge leaving it keeps
/// every edge of every cycle alive: such a target lies on no cycle.
proof fn lemma_drop_dead_edge(edges: Seq<(usize, usize)>, alive: Seq<bool>, j: int)
    requires
        alive.len() == edges.len(),
        0 <= j < edges.len(),
        keeps_cycles(edges, alive),
        forall|m: int| 0 <= m < edges.len() && #[trigger] alive[m] ==> edges[m].0 != edges[j].1,
    ensures
        keeps_cycles(edges, alive.update(j, false)),
{
    let after = alive.update(j, false);
    assert forall|c: Seq<usize>, k: int| is_cycle(edges, c) && 0 <= k < c.len() implies #[trigger] live_edge(
        edges,
        after,
        c[k],
        cycle_next(c, k),
    ) by {
        assert(live_edge(edges, alive, c[k], cycle_next(c, k)));
        let q = choose|q: int| 0 <= q < edges.len() && alive[q] && edges[q] == (c[k], cycle_next(c, k));
        if q == j {
            let k2 = if k + 1 < c.len() { k + 1 } else { 0 };
            assert(c[k2] == cycle_next(c, k));
            assert(live_edge(edges, alive, c[k2], cycle_next(c, k2)));
            let q2 = choose|q2: int| 0 <= q2 < edges.len() && alive[q2] && edges[q2] == (c[k2], cycle_next(c, k2));
            assert(edges[q2].0 == edges[j].1);
        }
        assert(after[q]);
    }
}

/// A walk without repeated nodes past its start visits at most as many
/// nodes as there are edges, each being an edge's target.
proof fn lemma_path_bound(edges: Seq<(usize, usize)>, tail: Seq<usize>)
    requires
        tail.no_duplicates(),
        forall|k: int| 0 <= k < tail.len() ==> is_target(edges, #[trigger] tail[k]),
    ensures
        tail.len() <= edges.len(),
{
    let targets = edges.map_values(|e: (usize, usize)| e.1);
    tail.unique_seq_to_set();
    targets.lemma_cardinality_of_set();
    assert forall|x: usize| tail.to_set().contains(x) implies targets.to_set().contains(x) by {
        let k = choose|k: int| 0 <= k < tail.len() && tail[k] == x;
        assert(is_target(edges, tail[k]));
        let i = choose|i: int| 0 <= i < edges.len() && edges[i].1 == x;
        assert(targets[i] == x);
    }
    lemma_len_subset(tail.to_set(), targets.to_set());
}

/// The node after position `k` of the cycle `c`.
pub open spec fn cycle_next(c: Seq<usize>, k: int) -> usize {
    if k + 1 < c.len() {
        c[k + 1]
    } else {
        c[0]
    }
}

/// The edge `a -> b` is recorded at a position still marked alive.
pub open spec fn live_edge(edges: Seq<(usize, usize)>, alive: Seq<bool>, a: usize, b: usize) -> bool {
    exists|j: int| 0 <= j < edges.len() && alive[j] && edges[j] == (a, b)
}

/// Every edge of every cycle is still alive.
pub open spec fn keeps_cycles(edges: Seq<(usize, usize)>, alive: Seq<bool>) -> bool {
    forall|c: Seq<usize>, k: int|
        is_cycle(edges, c) && 0 <= k < c.len() ==> #[trigger] live_edge(edges, alive, c[k], cycle_next(c, k))
}

/// Every alive edge leads to a node with an alive edge leaving it.
pub open spec fn settled(edges: Seq<(usize, usize)>, alive: Seq<bool>) -> bool {
    forall|m: int|
        0 <= m < edges.len() && #[trigger] alive[m] ==> exists|q: int|
            0 <= q < edges.len() && alive[q] && edges[q].0 == edges[m].1
}

proof fn lemma_cycle_edge(edges: Seq<(usize, usize)>, c: Seq<usize>, k: int)
    requires
        is_cycle(edges, c),
        0 <= k < c.len(),
    ensures
        has_edge(edges, c[k], cycle_next(c, k)),
{
    if k + 1 < c.len() {
        assert(has_edge(edges, c[k], c[k + 1]));
    }
}

} // verus!
