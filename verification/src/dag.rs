//! Dependency graphs over command indices: edges point from a command to
//! what it depends on.  A graph is acyclic when its nodes can be ranked so
//! that every dependency ranks below its dependent.

use vstd::prelude::*;

verus! {

/// Every edge points at a node of the graph.
pub open spec fn in_range(edges: Seq<Seq<usize>>) -> bool {
    forall|i: int, k: int|
        0 <= i < edges.len() && 0 <= k < edges[i].len() ==> (#[trigger] edges[i][k]) < edges.len()
}

/// Every dependency ranks strictly below its dependent.
pub open spec fn is_ranking(edges: Seq<Seq<usize>>, rank: Seq<usize>) -> bool {
    &&& rank.len() == edges.len()
    &&& forall|i: int, k: int|
        0 <= i < edges.len() && 0 <= k < edges[i].len() ==> (#[trigger] edges[i][k]) < edges.len()
            && rank[edges[i][k] as int] < rank[i]
}

/// The graph has no cycle.
pub open spec fn acyclic(edges: Seq<Seq<usize>>) -> bool {
    exists|rank: Seq<usize>| is_ranking(edges, rank)
}

/// `order` lists every node once, dependencies first, and `rank` gives each
/// node's place in it.
pub open spec fn is_layout(edges: Seq<Seq<usize>>, order: Seq<usize>, rank: Seq<usize>) -> bool {
    &&& order.len() == edges.len()
    &&& is_ranking(edges, rank)
    &&& forall|i: int| 0 <= i < rank.len() ==> (#[trigger] rank[i]) < order.len() && order[rank[i] as int] == i
    &&& forall|p: int| 0 <= p < order.len() ==> (#[trigger] order[p]) < rank.len() && rank[order[p] as int] == p
}

/// `from` depends directly on `to`.
pub open spec fn has_edge(edges: Seq<Seq<usize>>, from: int, to: int) -> bool {
    0 <= from < edges.len() && exists|k: int| 0 <= k < edges[from].len() && edges[from][k] == to
}

/// Each node of the path depends directly on the next one.
pub open spec fn is_path(edges: Seq<Seq<usize>>, path: Seq<int>) -> bool {
    &&& path.len() > 0
    &&& 0 <= path[0] < edges.len()
    &&& forall|j: int| 0 <= j < path.len() - 1 ==> #[trigger] has_edge(edges, path[j], path[j + 1])
}

/// Along a path the rank falls by at least one at every edge.
pub proof fn lemma_path_descends(
    edges: Seq<Seq<usize>>,
    rank: Seq<usize>,
    path: Seq<int>,
    at: int,
)
    requires
        is_ranking(edges, rank),
        is_path(edges, path),
        0 <= at < path.len(),
    ensures
        0 <= path[at] < edges.len(),
        rank[path[at]] + at <= rank[path[0]],
    decreases at,
{
    if at > 0 {
        lemma_path_descends(edges, rank, path, at - 1);
        let j = at - 1;
        let from = path[j];
        let to = path[j + 1];
        assert(has_edge(edges, path[j], path[j + 1]));
        let k = choose|k: int| 0 <= k < edges[from].len() && #[trigger] edges[from][k] == to;
        assert(rank[edges[from][k] as int] < rank[from]);
    }
}

/// In an acyclic graph no command depends on itself, directly or through
/// other commands: a path of one edge or more never ends where it began.
pub proof fn law_no_cycle(edges: Seq<Seq<usize>>, path: Seq<int>)
    requires
        acyclic(edges),
        is_path(edges, path),
        path.len() >= 2,
    ensures
        path.last() != path[0],
{
    let rank = choose|rank: Seq<usize>| is_ranking(edges, rank);
    lemma_path_descends(edges, rank, path, path.len() - 1);
}

/// How many of the first `upto` nodes have been given a place; `unplaced`
/// marks a node without one.
pub open spec fn placed_upto(rank: Seq<usize>, unplaced: usize, upto: int) -> int
    decreases upto,
{
    if upto <= 0 {
        0
    } else {
        placed_upto(rank, unplaced, upto - 1) + if rank[upto - 1] != unplaced {
            1int
        } else {
            0int
        }
    }
}

proof fn lemma_placed_bounds(rank: Seq<usize>, unplaced: usize, upto: int)
    requires
        0 <= upto <= rank.len(),
    ensures
        0 <= placed_upto(rank, unplaced, upto) <= upto,
        placed_upto(rank, unplaced, upto) == upto ==> forall|j: int|
            0 <= j < upto ==> rank[j] != unplaced,
        placed_upto(rank, unplaced, upto) < upto ==> exists|j: int|
            0 <= j < upto && rank[j] == unplaced,
    decreases upto,
{
    if upto > 0 {
        lemma_placed_bounds(rank, unplaced, upto - 1);
        if placed_upto(rank, unplaced, upto) < upto {
            if rank[upto - 1] == unplaced {
                assert(0 <= upto - 1 < upto && rank[upto - 1] == unplaced);
            } else {
                let j = choose|j: int| 0 <= j < upto - 1 && rank[j] == unplaced;
                assert(0 <= j < upto && rank[j] == unplaced);
            }
        }
    }
}

proof fn lemma_placed_update(rank: Seq<usize>, unplaced: usize, node: int, place: usize, upto: int)
    requires
        0 <= node < rank.len(),
        0 <= upto <= rank.len(),
        rank[node] == unplaced,
        place != unplaced,
    ensures
        placed_upto(rank.update(node, place), unplaced, upto) == placed_upto(rank, unplaced, upto)
            + if node < upto {
            1int
        } else {
            0int
        },
    decreases upto,
{
    if upto > 0 {
        lemma_placed_update(rank, unplaced, node, place, upto - 1);
    }
}

/// Where every node without a place depends on another node without a
/// place, following those edges never ends, so no ranking exists.
proof fn lemma_descent(
    edges: Seq<Seq<usize>>,
    rank: Seq<usize>,
    unplaced: usize,
    witness: Seq<usize>,
    node: int,
)
    requires
        rank.len() == edges.len(),
        witness.len() == edges.len(),
        0 <= node < edges.len(),
        rank[node] == unplaced,
        forall|i: int|
            0 <= i < edges.len() && rank[i] == unplaced ==> exists|k: int|
                0 <= k < edges[i].len() && rank[(#[trigger] edges[i][k]) as int] == unplaced,
    ensures
        !is_ranking(edges, witness),
    decreases witness[node],
{
    if is_ranking(edges, witness) {
        let k = choose|k: int|
            0 <= k < edges[node].len() && rank[(#[trigger] edges[node][k]) as int] == unplaced;
        lemma_descent(edges, rank, unplaced, witness, edges[node][k] as int);
    }
}

/// The nested view of the edges is the edges themselves, row by row.
pub proof fn lemma_edges_view(edges: &Vec<Vec<usize>>)
    ensures
        edges.deep_view().len() == edges.len(),
        forall|i: int| 0 <= i < edges.len() ==> #[trigger] edges.deep_view()[i] == edges[i]@,
{
    assert forall|i: int| 0 <= i < edges.len() implies #[trigger] edges.deep_view()[i]
        == edges[i]@ by {
        assert(edges[i].deep_view() =~= edges[i]@);
    }
}

/// Whether every dependency of `node` has a place already.
fn all_placed(edges: &Vec<Vec<usize>>, rank: &Vec<usize>, node: usize) -> (b: bool)
    requires
        in_range(edges.deep_view()),
        rank.len() == edges.len(),
        node < edges.len(),
    ensures
        b ==> forall|k: int|
            0 <= k < edges.deep_view()[node as int].len() ==> rank[(
            #[trigger] edges.deep_view()[node as int][k]) as int] != edges.len(),
        !b ==> exists|k: int|
            0 <= k < edges.deep_view()[node as int].len() && rank[(
            #[trigger] edges.deep_view()[node as int][k]) as int] == edges.len(),
{
    let n = edges.len();
    let ghost e = edges.deep_view();
    proof {
        lemma_edges_view(edges);
    }
    let deps = &edges[node];
    let mut k: usize = 0;
    while k < deps.len()
        invariant
            k <= deps.len(),
            n == edges.len(),
            rank.len() == n,
            node < n,
            e == edges.deep_view(),
            e.len() == n,
            deps@ == e[node as int],
            in_range(e),
            forall|j: int| 0 <= j < k ==> rank[(#[trigger] e[node as int][j]) as int] != n,
        decreases deps.len() - k,
    {
        assert(e[node as int][k as int] < n);
        if rank[deps[k]] == n {
            return false;
        }
        k += 1;
    }
    true
}

/// `order` holds the nodes placed so far, dependencies first, and `rank`
/// the place of each of them; a node without a place has rank `edges.len()`.
pub open spec fn partial_layout(edges: Seq<Seq<usize>>, order: Seq<usize>, rank: Seq<usize>) -> bool {
    let n = edges.len();
    &&& rank.len() == n
    &&& order.len() == placed_upto(rank, n as usize, n as int)
    &&& forall|p: int| 0 <= p < order.len() ==> (#[trigger] order[p]) < n && rank[order[p] as int] == p
    &&& forall|i: int|
        0 <= i < n ==> (#[trigger] rank[i]) == n || (rank[i] < order.len() && order[rank[i] as int]
            == i)
    &&& forall|i: int, k: int|
        0 <= i < n && rank[i] != n && 0 <= k < edges[i].len() ==> rank[(#[trigger] edges[i][k]) as int]
            < rank[i]
}

/// The node has no place, and one of its dependencies has none either.
pub open spec fn blocked(edges: Seq<Seq<usize>>, rank: Seq<usize>, node: int) -> bool {
    exists|k: int|
        0 <= k < edges[node].len() && rank[(#[trigger] edges[node][k]) as int] == edges.len()
}

/// Gives `node` the next place.
fn place(edges: &Vec<Vec<usize>>, order: &mut Vec<usize>, rank: &mut Vec<usize>, node: usize)
    requires
        edges.len() <= usize::MAX,
        in_range(edges.deep_view()),
        partial_layout(edges.deep_view(), old(order)@, old(rank)@),
        node < edges.len(),
        old(rank)[node as int] == edges.len(),
        forall|k: int|
            0 <= k < edges.deep_view()[node as int].len() ==> old(rank)[(
            #[trigger] edges.deep_view()[node as int][k]) as int] != edges.len(),
    ensures
        partial_layout(edges.deep_view(), final(order)@, final(rank)@),
        final(order)@ == old(order)@.push(node),
        final(rank)@ == old(rank)@.update(node as int, old(order).len()),
        old(order).len() < edges.len(),
{
    let ghost e = edges.deep_view();
    let ghost n = edges.len();
    let ghost old_rank = rank@;
    let ghost old_order = order@;
    let spot = order.len();
    proof {
        lemma_edges_view(edges);
        lemma_placed_bounds(rank@, n, n as int);
        lemma_placed_update(rank@, n, node as int, spot, n as int);
    }
    rank.set(node, spot);
    order.push(node);
    proof {
        assert forall|j: int, k: int|
            0 <= j < n && rank[j] != n && 0 <= k < e[j].len() implies rank[(#[trigger] e[j][k]) as int]
            < rank[j] by {
            let d = e[j][k] as int;
            assert(d < n);
            if j == node as int {
                assert(old_rank[d] != n);
                assert(old_rank[d] < old_order.len());
            } else {
                assert(old_rank[j] != n);
                assert(old_rank[d] < old_rank[j]);
            }
        }
        assert forall|p: int| 0 <= p < order.len() implies (#[trigger] order[p]) < n
            && rank[order[p] as int] == p by {
            if p < old_order.len() {
                assert(old_order[p] == order[p]);
                assert(old_rank[old_order[p] as int] == p);
            }
        }
        assert forall|j: int| 0 <= j < n implies (#[trigger] rank[j]) == n || (rank[j]
            < order.len() && order[rank[j] as int] == j) by {
            if j != node as int {
                assert(old_rank[j] == rank[j]);
            }
        }
    }
}

/// Goes through the nodes once and places each that has no place yet and
/// whose dependencies all have one.
fn place_ready(edges: &Vec<Vec<usize>>, order: &mut Vec<usize>, rank: &mut Vec<usize>)
    requires
        in_range(edges.deep_view()),
        partial_layout(edges.deep_view(), old(order)@, old(rank)@),
    ensures
        partial_layout(edges.deep_view(), final(order)@, final(rank)@),
        final(order).len() >= old(order).len(),
        final(order).len() == old(order).len() ==> forall|j: int|
            0 <= j < edges.len() && final(rank)[j] == edges.len() ==> #[trigger] blocked(
                edges.deep_view(),
                final(rank)@,
                j,
            ),
{
    let n = edges.len();
    let ghost e = edges.deep_view();
    let ghost before = order.len();
    proof {
        lemma_edges_view(edges);
    }
    let mut i: usize = 0;
    while i < n
        invariant
            i <= n,
            n == edges.len(),
            e == edges.deep_view(),
            e.len() == n,
            in_range(e),
            partial_layout(e, order@, rank@),
            before <= order.len(),
            order.len() == before ==> forall|j: int|
                0 <= j < i && rank[j] == n ==> #[trigger] blocked(e, rank@, j),
        decreases n - i,
    {
        if rank[i] == n {
            if all_placed(edges, rank, i) {
                place(edges, order, rank, i);
            } else {
                assert(blocked(e, rank@, i as int));
            }
        }
        i += 1;
    }
}

/// Lays the nodes out with dependencies first, if the graph has no cycle.
pub fn topological_order(edges: &Vec<Vec<usize>>) -> (out: Option<(Vec<usize>, Vec<usize>)>)
    requires
        in_range(edges.deep_view()),
    ensures
        match out {
            Some((order, rank)) => is_layout(edges.deep_view(), order@, rank@),
            None => !acyclic(edges.deep_view()),
        },
{
    let n = edges.len();
    let ghost e = edges.deep_view();
    proof {
        lemma_edges_view(edges);
    }
    let mut rank: Vec<usize> = Vec::new();
    let mut f: usize = 0;
    while f < n
        invariant
            f <= n,
            rank.len() == f,
            forall|j: int| 0 <= j < f ==> rank[j] == n,
        decreases n - f,
    {
        rank.push(n);
        f += 1;
    }
    let mut order: Vec<usize> = Vec::new();
    proof {
        lemma_placed_zero(rank@, n, n as int);
    }
    loop
        invariant
            n == edges.len(),
            e == edges.deep_view(),
            e.len() == n,
            in_range(e),
            partial_layout(e, order@, rank@),
        decreases n - order.len(),
    {
        proof {
            lemma_placed_bounds(rank@, n, n as int);
        }
        if order.len() == n {
            return Some((order, rank));
        }
        let before = order.len();
        place_ready(edges, &mut order, &mut rank);
        proof {
            lemma_placed_bounds(rank@, n, n as int);
        }
        if order.len() == before {
            proof {
                let node = choose|j: int| 0 <= j < n && rank@[j] == n;
                if acyclic(e) {
                    let witness = choose|w: Seq<usize>| is_ranking(e, w);
                    assert forall|i: int| 0 <= i < e.len() && rank@[i] == n implies exists|k: int|
                        0 <= k < e[i].len() && rank@[(#[trigger] e[i][k]) as int] == n by {
                        assert(blocked(e, rank@, i));
                    }
                    lemma_descent(e, rank@, n, witness, node);
                }
            }
            return None;
        }
    }
}

proof fn lemma_placed_zero(rank: Seq<usize>, unplaced: usize, upto: int)
    requires
        0 <= upto <= rank.len(),
        forall|j: int| 0 <= j < rank.len() ==> rank[j] == unplaced,
    ensures
        placed_upto(rank, unplaced, upto) == 0,
    decreases upto,
{
    if upto > 0 {
        lemma_placed_zero(rank, unplaced, upto - 1);
    }
}

} // verus!
