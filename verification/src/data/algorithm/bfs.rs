//! Breadth-first shortest-path search over the link graph.

use std::collections::VecDeque;
use vstd::prelude::*;
use vstd::hash_map::HashMapWithView;
use vstd::hash_set::HashSetWithView;

use crate::data::maps::link_map::LinkMap;

verus! {

broadcast use vstd::std_specs::hash::group_hash_axioms, vstd::hash_map::group_hash_map_axioms,
    vstd::hash_set::group_hash_set_axioms, vstd::seq_lib::group_seq_properties;

/// The graph records an edge from `a` to `b`.
pub open spec fn has_edge(graph: Map<i32, Seq<i32>>, a: i32, b: i32) -> bool {
    graph.dom().contains(a) && graph[a].contains(b)
}

/// `p` walks the graph along edge direction: one node at least, and every
/// consecutive pair joined by an edge.
pub open spec fn is_path(graph: Map<i32, Seq<i32>>, p: Seq<i32>) -> bool {
    p.len() >= 1 && forall|i: int| 0 <= i < p.len() - 1 ==> has_edge(graph, #[trigger] p[i], p[i + 1])
}

/// `b` can be reached from `a` following edge direction; every node reaches
/// itself by the one-node path.
pub open spec fn reachable(graph: Map<i32, Seq<i32>>, a: i32, b: i32) -> bool {
    exists|p: Seq<i32>| is_path(graph, p) && p.first() == a && p.last() == b
}

/// Every node some edge points at.
spec fn targets(graph: Map<i32, Seq<i32>>) -> Set<i32> {
    Set::new(|t: i32| exists|s: i32| #[trigger] has_edge(graph, s, t))
}

/// A graph with finitely many sources, each with finitely many edges, has
/// finitely many targets.
proof fn lemma_targets_finite(graph: Map<i32, Seq<i32>>)
    requires
        graph.dom().finite(),
    ensures
        targets(graph).finite(),
    decreases graph.dom().len(),
{
    broadcast use vstd::set_lib::group_set_lib_default;

    if graph.dom().is_empty() {
        assert forall|t: i32| !(#[trigger] targets(graph).contains(t)) by {
            if exists|s: i32| #[trigger] has_edge(graph, s, t) {
                let s = choose|s: i32| #[trigger] has_edge(graph, s, t);
                assert(graph.dom().contains(s));
            }
        }
        assert(targets(graph) =~= Set::<i32>::empty());
    } else {
        let k = graph.dom().choose();
        let rest = graph.remove(k);
        lemma_targets_finite(rest);
        assert forall|t: i32| #[trigger]
            targets(graph).contains(t) implies targets(rest).contains(t) || graph[k].to_set(
        ).contains(t) by {
            let s = choose|s: i32| #[trigger] has_edge(graph, s, t);
            if s == k {
                assert(graph[k].contains(t));
            } else {
                assert(has_edge(rest, s, t));
            }
        }
        assert(targets(graph).subset_of(targets(rest).union(graph[k].to_set())));
        assert(targets(rest).union(graph[k].to_set()).finite());
        vstd::set_lib::lemma_len_subset(targets(graph), targets(rest).union(graph[k].to_set()));
    }
}

/// A path witnesses that its last node is reachable from its first.
proof fn lemma_reachable_witness(graph: Map<i32, Seq<i32>>, p: Seq<i32>)
    requires
        is_path(graph, p),
    ensures
        reachable(graph, p.first(), p.last()),
{
    assert(is_path(graph, p) && p.first() == p.first() && p.last() == p.last());
}

/// Every node of a path starting inside a set that is closed under edges
/// stays inside the set.
proof fn lemma_path_stays(graph: Map<i32, Seq<i32>>, s: Set<i32>, p: Seq<i32>)
    requires
        is_path(graph, p),
        s.contains(p.first()),
        forall|v: i32, w: i32|
            s.contains(v) && #[trigger] has_edge(graph, v, w) ==> s.contains(w),
    ensures
        s.contains(p.last()),
    decreases p.len(),
{
    if p.len() > 1 {
        assert(has_edge(graph, p[0], p[1]));
        let rest = p.drop_first();
        assert forall|i: int| 0 <= i < rest.len() - 1 implies #[trigger] has_edge(
            graph,
            rest[i],
            rest[i + 1],
        ) by {
            assert(has_edge(graph, p[i + 1], p[i + 2]));
        }
        lemma_path_stays(graph, s, rest);
    }
}

/// Nothing outside a set that contains `a` and is closed under edges is
/// reachable from `a`.
proof fn lemma_closed_unreachable(graph: Map<i32, Seq<i32>>, s: Set<i32>, a: i32, b: i32)
    requires
        s.contains(a),
        !s.contains(b),
        forall|v: i32, w: i32|
            s.contains(v) && #[trigger] has_edge(graph, v, w) ==> s.contains(w),
    ensures
        !reachable(graph, a, b),
{
    if reachable(graph, a, b) {
        let p = choose|p: Seq<i32>| is_path(graph, p) && p.first() == a && p.last() == b;
        lemma_path_stays(graph, s, p);
    }
}

/// The predecessor map the search builds is a tree rooted at `start`: every
/// recorded node other than the root has a recorded predecessor one step
/// shallower, joined to it by an edge.
spec fn pred_wf(
    pred: Map<i32, i32>,
    depth: Map<i32, nat>,
    graph: Map<i32, Seq<i32>>,
    start: i32,
) -> bool {
    &&& pred.dom() == depth.dom()
    &&& pred.dom().contains(start)
    &&& depth[start] == 0
    &&& forall|v: i32| #[trigger]
        pred.dom().contains(v) && v != start ==> pred.dom().contains(pred[v]) && has_edge(
            graph,
            pred[v],
            v,
        ) && depth[v] == depth[pred[v]] + 1
}

/// Every node the search has finished with keeps its neighbors inside the
/// visited set, at most one level below it.
spec fn processed_closed(
    graph: Map<i32, Seq<i32>>,
    visited: Set<i32>,
    queue: Seq<i32>,
    depth: Map<i32, nat>,
) -> bool {
    forall|v: i32, w: i32|
        visited.contains(v) && !queue.contains(v) && #[trigger] has_edge(graph, v, w)
            ==> visited.contains(w) && depth[w] <= depth[v] + 1
}

/// The queue holds nodes in nondecreasing depth order, all within one level
/// of each other.
spec fn queue_levels_ok(queue: Seq<i32>, depth: Map<i32, nat>) -> bool {
    forall|i: int, j: int|
        0 <= i <= j < queue.len() ==> depth[#[trigger] queue[i]] <= depth[#[trigger] queue[j]]
            && depth[queue[j]] <= depth[queue[i]] + 1
}

/// Every node the search has finished with sits at or below every depth
/// still waiting in the queue.
spec fn processed_before_frontier(
    visited: Set<i32>,
    queue: Seq<i32>,
    depth: Map<i32, nat>,
) -> bool {
    forall|v: i32, i: int|
        #![trigger visited.contains(v), queue[i]]
        visited.contains(v) && !queue.contains(v) && 0 <= i < queue.len() ==> depth[v] <= depth[
            queue[i]
        ]
}

/// Along any path out of `start`, either some prefix node still waits in
/// the queue no deeper than its position, or the node at position `k` is
/// finished no deeper than `k`.
proof fn lemma_path_position(
    graph: Map<i32, Seq<i32>>,
    visited: Set<i32>,
    queue: Seq<i32>,
    depth: Map<i32, nat>,
    start: i32,
    p: Seq<i32>,
    k: int,
)
    requires
        processed_closed(graph, visited, queue, depth),
        forall|i: int| 0 <= i < queue.len() ==> visited.contains(#[trigger] queue[i]),
        visited.contains(start),
        depth.dom() == visited,
        depth[start] == 0,
        is_path(graph, p),
        p.first() == start,
        0 <= k < p.len(),
    ensures
        (exists|m: int| 0 <= m <= k && queue.contains(#[trigger] p[m]) && depth[p[m]] <= m) || (
        visited.contains(p[k]) && !queue.contains(p[k]) && depth[p[k]] <= k),
    decreases k,
{
    if k == 0 {
        if queue.contains(p[0]) {
            assert(0 <= 0 <= k && queue.contains(p[0]) && depth[p[0]] <= 0);
        }
    } else {
        lemma_path_position(graph, visited, queue, depth, start, p, k - 1);
        if exists|m: int| 0 <= m <= k - 1 && queue.contains(#[trigger] p[m]) && depth[p[m]] <= m {
            let m = choose|m: int|
                0 <= m <= k - 1 && queue.contains(#[trigger] p[m]) && depth[p[m]] <= m;
            assert(0 <= m <= k && queue.contains(p[m]) && depth[p[m]] <= m);
        } else {
            assert(has_edge(graph, p[k - 1], p[k]));
            assert(visited.contains(p[k]) && depth[p[k]] <= depth[p[k - 1]] + 1);
            if queue.contains(p[k]) {
                assert(0 <= k <= k && queue.contains(p[k]) && depth[p[k]] <= k);
            }
        }
    }
}

/// No path from `start` to the still-unvisited `end` takes fewer nodes than
/// two more than the queue front's depth.
proof fn lemma_frontier_lower_bound(
    graph: Map<i32, Seq<i32>>,
    visited: Set<i32>,
    queue: Seq<i32>,
    depth: Map<i32, nat>,
    start: i32,
    end: i32,
    p: Seq<i32>,
)
    requires
        processed_closed(graph, visited, queue, depth),
        queue_levels_ok(queue, depth),
        forall|i: int| 0 <= i < queue.len() ==> visited.contains(#[trigger] queue[i]),
        visited.contains(start),
        !visited.contains(end),
        depth.dom() == visited,
        depth[start] == 0,
        queue.len() > 0,
        is_path(graph, p),
        p.first() == start,
        p.last() == end,
    ensures
        p.len() >= depth[queue[0]] + 2,
{
    lemma_path_position(graph, visited, queue, depth, start, p, p.len() - 1);
    let m = choose|m: int|
        0 <= m <= p.len() - 1 && queue.contains(#[trigger] p[m]) && depth[p[m]] <= m;
    assert(visited.contains(p[m]));
    assert(m < p.len() - 1);
    let idx = choose|idx: int| 0 <= idx < queue.len() && queue[idx] == p[m];
    assert(depth[queue[0]] <= depth[queue[idx]]);
}

/// Walks the predecessor tree back from `end` to `start` and returns the
/// forward path, both endpoints included.
fn rebuild_path(
    predecessors: HashMapWithView<i32, i32>,
    start: i32,
    end: i32,
    Ghost(depth): Ghost<Map<i32, nat>>,
    Ghost(graph): Ghost<Map<i32, Seq<i32>>>,
) -> (path: Vec<i32>)
    requires
        pred_wf(predecessors@, depth, graph, start),
        predecessors@.dom().contains(end),
    ensures
        is_path(graph, path@),
        path@.first() == start,
        path@.last() == end,
        path@.len() == depth[end] + 1,
{
    let mut rev: Vec<i32> = Vec::new();
    rev.push(end);
    let mut at = end;
    while at != start
        invariant
            pred_wf(predecessors@, depth, graph, start),
            predecessors@.dom().contains(at),
            rev@.len() >= 1,
            rev@[0] == end,
            rev@.last() == at,
            rev@.len() == depth[end] - depth[at] + 1,
            forall|i: int|
                0 <= i < rev@.len() - 1 ==> has_edge(graph, rev@[i + 1], #[trigger] rev@[i]),
        decreases depth[at],
    {
        let prev = match predecessors.get(&at) {
            Some(prev) => *prev,
            None => {
                proof {
                    assert(false);
                }
                at
            },
        };
        rev.push(prev);
        at = prev;
    }
    let n = rev.len();
    let mut path: Vec<i32> = Vec::new();
    let mut i = n;
    while i > 0
        invariant
            n == rev@.len(),
            i <= n,
            path@.len() == n - i,
            forall|j: int| 0 <= j < path@.len() ==> path@[j] == rev@[n - 1 - j],
        decreases i,
    {
        i = i - 1;
        path.push(rev[i]);
    }
    proof {
        assert forall|j: int| 0 <= j < path@.len() - 1 implies #[trigger] has_edge(
            graph,
            path@[j],
            path@[j + 1],
        ) by {
            assert(path@[j] == rev@[n - 1 - j]);
            assert(path@[j + 1] == rev@[n - 1 - (j + 1)]);
            assert(has_edge(graph, rev@[(n - 2 - j) + 1], rev@[n - 2 - j]));
        }
    }
    path
}

/// One shortest (fewest-edges) path from `start` to `end`, both endpoints
/// included, or `None` exactly when `end` is not reachable from `start`:
/// every path between the two takes at least as many nodes as the returned
/// one. Among equally short paths the one found first under breadth-first
/// order wins, which follows edge insertion order within each adjacency
/// list.
pub fn find_shortest_path(start: i32, end: i32, links: &LinkMap) -> (result: Option<Vec<i32>>)
    ensures
        match result {
            Some(path) => {
                &&& is_path(links@, path@)
                &&& path@.first() == start
                &&& path@.last() == end
                &&& forall|p2: Seq<i32>|
                    #[trigger] is_path(links@, p2) && p2.first() == start && p2.last() == end
                        ==> p2.len() >= path@.len()
            },
            None => !reachable(links@, start, end),
        },
        (result is Some) <==> reachable(links@, start, end),
        start == end ==> match result {
            Some(path) => path@ =~= seq![start],
            None => false,
        },
{
    let ghost graph = links@;
    if start == end {
        let mut path: Vec<i32> = Vec::new();
        path.push(start);
        proof {
            assert(path@ =~= seq![start]);
            assert(is_path(graph, path@));
            lemma_reachable_witness(graph, path@);
        }
        return Some(path);
    }
    proof {
        use_type_invariant(links);
        links.lemma_view_finite();
        lemma_targets_finite(graph);
    }
    let ghost allowed = targets(graph).insert(start);

    let mut queue: VecDeque<i32> = VecDeque::new();
    let mut predecessor: HashMapWithView<i32, i32> = HashMapWithView::new();
    let mut visited: HashSetWithView<i32> = HashSetWithView::new();
    let ghost mut depth: Map<i32, nat> = Map::<i32, nat>::empty().insert(start, 0nat);

    queue.push_back(start);
    predecessor.insert(start, start);
    visited.insert(start);
    proof {
        vstd::set_lib::lemma_len_subset(visited@, allowed);
    }

    while queue.len() > 0
        invariant
            start != end,
            graph == links@,
            allowed == targets(graph).insert(start),
            allowed.finite(),
            visited@.finite(),
            visited@.subset_of(allowed),
            visited@.len() <= allowed.len(),
            visited@.contains(start),
            !visited@.contains(end),
            forall|i: int| 0 <= i < queue@.len() ==> visited@.contains(#[trigger] queue@[i]),
            predecessor@.dom() == visited@,
            depth.dom() == visited@,
            depth[start] == 0,
            pred_wf(predecessor@, depth, graph, start),
            processed_closed(graph, visited@, queue@, depth),
            queue_levels_ok(queue@, depth),
            processed_before_frontier(visited@, queue@, depth),
        decreases allowed.len() - visited@.len(), queue@.len(),
    {
        let ghost old_visited = visited@;
        let ghost old_queue = queue@;
        let ghost old_depth = depth;
        let at = match queue.pop_front() {
            Some(at) => at,
            None => {
                proof {
                    assert(false);
                }
                start
            },
        };
        let ghost qtail = queue@;
        let ghost depth_at = depth[at];

        proof {
            assert(qtail =~= old_queue.subrange(1, old_queue.len() as int));
            assert forall|i: int, j: int| 0 <= i <= j < queue@.len() implies depth[
                #[trigger] queue@[i]
            ] <= depth[#[trigger] queue@[j]] && depth[queue@[j]] <= depth[queue@[i]] + 1 by {
                assert(queue@[i] == old_queue[i + 1]);
                assert(queue@[j] == old_queue[j + 1]);
                assert(old_depth[old_queue[i + 1]] <= old_depth[old_queue[j + 1]]);
            }
            assert forall|i: int| 0 <= i < queue@.len() implies depth_at <= depth[
                #[trigger] queue@[i]
            ] && depth[queue@[i]] <= depth_at + 1 by {
                assert(queue@[i] == old_queue[i + 1]);
                assert(old_depth[old_queue[0]] <= old_depth[old_queue[i + 1]]);
            }
            assert forall|v: i32, i: int|
                #![trigger visited@.contains(v), queue@[i]]
                visited@.contains(v) && !queue@.contains(v) && 0 <= i
                    < queue@.len() implies depth[v] <= depth[queue@[i]] by {
                assert(queue@[i] == old_queue[i + 1]);
                if v == at {
                    assert(old_depth[old_queue[0]] <= old_depth[old_queue[i + 1]]);
                } else {
                    assert(!old_queue.contains(v)) by {
                        if old_queue.contains(v) {
                            let ii = choose|ii: int|
                                0 <= ii < old_queue.len() && old_queue[ii] == v;
                            if ii > 0 {
                                assert(qtail[ii - 1] == v);
                                assert(qtail.contains(v));
                            }
                        }
                    }
                    assert(old_visited.contains(v));
                    assert(depth[v] <= depth[old_queue[i + 1]]);
                }
            }
            assert forall|v: i32, w: i32|
                visited@.contains(v) && !queue@.contains(v) && v != at && #[trigger] has_edge(
                    graph,
                    v,
                    w,
                ) implies visited@.contains(w) && depth[w] <= depth[v] + 1 by {
                assert(!old_queue.contains(v)) by {
                    if old_queue.contains(v) {
                        let ii = choose|ii: int| 0 <= ii < old_queue.len() && old_queue[ii] == v;
                        if ii > 0 {
                            assert(qtail[ii - 1] == v);
                            assert(qtail.contains(v));
                        }
                    }
                }
            }
        }

        let neighbors = match links.get(at) {
            Some(neighbors) => neighbors,
            None => {
                continue ;
            },
        };

        let n = neighbors.len();
        for j in 0..n
            invariant
                start != end,
                graph == links@,
                allowed == targets(graph).insert(start),
                allowed.finite(),
                visited@.finite(),
                visited@.subset_of(allowed),
                visited@.len() <= allowed.len(),
                visited@.contains(start),
                !visited@.contains(end),
                graph.dom().contains(at),
                neighbors@ == graph[at],
                n == neighbors@.len(),
                visited@.contains(at),
                forall|i: int| 0 <= i < queue@.len() ==> visited@.contains(#[trigger] queue@[i]),
                predecessor@.dom() == visited@,
                depth.dom() == visited@,
                depth[start] == 0,
                depth[at] == depth_at,
                pred_wf(predecessor@, depth, graph, start),
                forall|v: i32, w: i32|
                    visited@.contains(v) && !queue@.contains(v) && v != at && #[trigger] has_edge(
                        graph,
                        v,
                        w,
                    ) ==> visited@.contains(w) && depth[w] <= depth[v] + 1,
                forall|jj: int|
                    0 <= jj < j ==> visited@.contains(#[trigger] neighbors@[jj]) && depth[
                        neighbors@[jj]
                    ] <= depth_at + 1,
                queue_levels_ok(queue@, depth),
                processed_before_frontier(visited@, queue@, depth),
                forall|i: int|
                    0 <= i < queue@.len() ==> depth_at <= depth[#[trigger] queue@[i]] && depth[
                        queue@[i]
                    ] <= depth_at + 1,
                old_queue.len() > 0,
                old_queue[0] == at,
                qtail == old_queue.subrange(1, old_queue.len() as int),
                old_depth.dom() == old_visited,
                old_visited.contains(start),
                old_depth[start] == 0,
                !old_visited.contains(end),
                old_visited.subset_of(visited@),
                depth_at == old_depth[at],
                processed_closed(graph, old_visited, old_queue, old_depth),
                queue_levels_ok(old_queue, old_depth),
                processed_before_frontier(old_visited, old_queue, old_depth),
                forall|i: int|
                    0 <= i < old_queue.len() ==> old_visited.contains(#[trigger] old_queue[i]),
                forall|v: i32|
                    old_visited.contains(v) ==> #[trigger] depth[v] == old_depth[v],
                forall|v: i32|
                    visited@.contains(v) && !old_visited.contains(v) ==> queue@.contains(v)
                        && #[trigger] depth[v] == depth_at + 1,
                visited@ == old_visited ==> queue@ == qtail,
                visited@ != old_visited ==> visited@.len() > old_visited.len(),
        {
            let neighbor = neighbors[j];
            proof {
                assert(graph[at][j as int] == neighbor);
                assert(has_edge(graph, at, neighbor));
                assert(allowed.contains(neighbor));
            }
            if !visited.contains(&neighbor) {
                queue.push_back(neighbor);
                predecessor.insert(neighbor, at);
                visited.insert(neighbor);
                proof {
                    depth = depth.insert(neighbor, (depth_at + 1) as nat);
                    vstd::set_lib::lemma_len_subset(visited@, allowed);
                    assert forall|i: int, jj: int| 0 <= i <= jj < queue@.len() implies depth[
                        #[trigger] queue@[i]
                    ] <= depth[#[trigger] queue@[jj]] && depth[queue@[jj]] <= depth[queue@[i]]
                        + 1 by {
                        if jj < queue@.len() - 1 {
                        } else {
                            assert(queue@[jj] == neighbor);
                        }
                    }
                }

                if neighbor == end {
                    proof {
                        assert forall|p2: Seq<i32>|
                            #[trigger] is_path(graph, p2) && p2.first() == start && p2.last()
                                == end implies p2.len() >= depth_at + 2 by {
                            lemma_frontier_lower_bound(
                                graph,
                                old_visited,
                                old_queue,
                                old_depth,
                                start,
                                end,
                                p2,
                            );
                        }
                    }
                    let path = rebuild_path(
                        predecessor,
                        start,
                        end,
                        Ghost(depth),
                        Ghost(graph),
                    );
                    proof {
                        lemma_reachable_witness(graph, path@);
                    }
                    return Some(path);
                }
            } else {
                proof {
                    if old_visited.contains(neighbor) {
                        if old_queue.contains(neighbor) {
                            let ii = choose|ii: int|
                                0 <= ii < old_queue.len() && old_queue[ii] == neighbor;
                            assert(old_depth[old_queue[0]] <= old_depth[old_queue[ii]]
                                && old_depth[old_queue[ii]] <= old_depth[old_queue[0]] + 1);
                        } else {
                            assert(old_depth[neighbor] <= old_depth[old_queue[0]]);
                        }
                        assert(depth[neighbor] == old_depth[neighbor]);
                    }
                    assert(depth[neighbor] <= depth_at + 1);
                }
            }
        }
        proof {
            assert forall|v: i32, w: i32|
                visited@.contains(v) && !queue@.contains(v) && #[trigger] has_edge(
                    graph,
                    v,
                    w,
                ) implies visited@.contains(w) && depth[w] <= depth[v] + 1 by {
                if v == at {
                    let jj = choose|jj: int| 0 <= jj < neighbors@.len() && neighbors@[jj] == w;
                    assert(visited@.contains(neighbors@[jj]) && depth[neighbors@[jj]] <= depth_at
                        + 1);
                }
            }
        }
    }
    proof {
        lemma_closed_unreachable(graph, visited@, start, end);
    }
    None
}

} // verus!
