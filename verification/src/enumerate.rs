//! The path enumerator: grows walks edge-by-edge from every start node
//! until each walk terminates, producing the complete set of terminal
//! walks.

use vstd::prelude::*;

use crate::ident::{ident_eq, IdV};
use crate::model::{EdgeV, Graph, GraphV};
use crate::path::{path_views, Path, PathV};

verus! {

/// Whether some declared edge leaves `a`.
pub open spec fn has_successor(g: GraphV, a: IdV) -> bool {
    exists|i: int| 0 <= i < g.edges.len() && (#[trigger] g.edges[i]).from == a
}

/// Whether `p` is a walk through `g`: at least one node, every node
/// declared, every step along a declared edge recorded in order.
pub open spec fn is_walk(g: GraphV, p: PathV) -> bool {
    &&& 1 <= p.nodes.len()
    &&& p.edges.len() == p.nodes.len() - 1
    &&& forall|i: int| 0 <= i < p.nodes.len() ==> g.nodes.contains(#[trigger] p.nodes[i])
    &&& forall|i: int| 0 <= i < p.edges.len() ==> g.edges.contains(#[trigger] p.edges[i])
    &&& forall|i: int|
        0 <= i < p.edges.len() ==> (#[trigger] p.edges[i]).from == p.nodes[i] && p.edges[i].to
            == p.nodes[i + 1]
}

/// A simple walk: no node visited twice.
pub open spec fn is_simple(p: PathV) -> bool {
    p.nodes.no_duplicates()
}

/// A walk closed into a full cycle: the last node equals the first, and
/// nothing else is revisited.
pub open spec fn is_closed_cycle(p: PathV) -> bool {
    p.nodes.len() >= 2 && p.nodes.last() == p.nodes[0] && p.nodes.drop_last().no_duplicates()
}

/// A terminal walk: one the enumerator finalizes, for one of its three
/// reasons — a dead end, a closed cycle, or a successor that would
/// revisit an interior node.
pub open spec fn is_terminal_walk(g: GraphV, p: PathV) -> bool {
    is_walk(g, p) && ((is_simple(p) && !has_successor(g, p.nodes.last())) || is_closed_cycle(p)
        || (is_simple(p) && exists|i: int|
            0 <= i < g.edges.len() && (#[trigger] g.edges[i]).from == p.nodes.last()
                && p.nodes.contains(g.edges[i].to) && g.edges[i].to != p.nodes[0]))
}

/// A simple walk cannot be longer than the node list.
pub proof fn lemma_simple_walk_len(g: GraphV, p: PathV)
    requires
        is_walk(g, p),
        is_simple(p),
    ensures
        p.nodes.len() <= g.nodes.len(),
{
    broadcast use vstd::seq_lib::group_seq_properties;

    p.nodes.unique_seq_to_set();
    g.nodes.lemma_cardinality_of_set();
    assert forall|x: IdV| p.nodes.to_set().contains(x) implies g.nodes.to_set().contains(x) by {
        assert(p.nodes.contains(x));
        assert(g.nodes.contains(x));
    }
    assert(p.nodes.to_set() <= g.nodes.to_set());
    vstd::set_lib::lemma_len_subset(p.nodes.to_set(), g.nodes.to_set());
}

/// The index of the first node carrying `a`, or a negative value when
/// none does.
pub open spec fn first_index(nodes: Seq<IdV>, a: IdV) -> int
    decreases nodes.len(),
{
    if nodes.len() == 0 {
        -1
    } else if nodes[0] == a {
        0
    } else if first_index(nodes.drop_first(), a) < 0 {
        -1
    } else {
        first_index(nodes.drop_first(), a) + 1
    }
}

/// The first-match characterization pins `first_index` down.
proof fn lemma_first_index(nodes: Seq<IdV>, a: IdV, k: int)
    requires
        0 <= k < nodes.len(),
        nodes[k] == a,
        forall|j: int| 0 <= j < k ==> nodes[j] != a,
    ensures
        first_index(nodes, a) == k,
    decreases nodes.len(),
{
    if nodes[0] == a {
        assert(k == 0);
    } else {
        assert(k >= 1);
        let rest = nodes.drop_first();
        assert(rest[k - 1] == nodes[k]);
        assert forall|j: int| 0 <= j < k - 1 implies rest[j] != a by {
            assert(rest[j] == nodes[j + 1]);
        }
        lemma_first_index(rest, a, k - 1);
    }
}

/// The indices of the edges leaving `a`, in declaration order.
pub open spec fn neighbor_idxs(edges: Seq<EdgeV>, a: IdV) -> Seq<int>
    decreases edges.len(),
{
    if edges.len() == 0 {
        Seq::empty()
    } else if edges.last().from == a {
        neighbor_idxs(edges.drop_last(), a).push(edges.len() - 1)
    } else {
        neighbor_idxs(edges.drop_last(), a)
    }
}

/// The successors of a walk ending at `a`: for each edge leaving `a`, in
/// declaration order, the index of the first declared node carrying the
/// target identifier, paired with the edge index.
pub open spec fn nexts_of(g: GraphV, a: IdV) -> Seq<(int, int)> {
    neighbor_idxs(g.edges, a).map_values(|ei: int| (first_index(g.nodes, g.edges[ei].to), ei))
}

/// A walk grown by one node and the edge taken to it.
pub open spec fn extendv(p: PathV, n: IdV, e: EdgeV) -> PathV {
    PathV { nodes: p.nodes.push(n), edges: p.edges.push(e) }
}

/// What one walk contributes, successor by successor, in examination
/// order: first the walks it finalizes, then the walks it sends into the
/// next frontier. A successor equal to the start closes a cycle and
/// finalizes the extension; one revisiting any other visited node
/// finalizes the walk unchanged; any other grows the walk.
pub open spec fn step_rec(g: GraphV, p: PathV, ns: Seq<(int, int)>) -> (Seq<PathV>, Seq<PathV>)
    decreases ns.len(),
{
    if ns.len() == 0 {
        (Seq::empty(), Seq::empty())
    } else {
        let prev = step_rec(g, p, ns.drop_last());
        let n = g.nodes[ns.last().0];
        let e = g.edges[ns.last().1];
        if n == p.nodes[0] {
            (prev.0.push(extendv(p, n, e)), prev.1)
        } else if p.nodes.contains(n) {
            (prev.0.push(p), prev.1)
        } else {
            (prev.0, prev.1.push(extendv(p, n, e)))
        }
    }
}

/// What one walk contributes to the terminal set and the next frontier:
/// a walk with no successors is a dead end, finalized unchanged.
pub open spec fn step_of(g: GraphV, p: PathV) -> (Seq<PathV>, Seq<PathV>) {
    let ns = nexts_of(g, p.nodes.last());
    if ns.len() == 0 {
        (seq![p], Seq::empty())
    } else {
        step_rec(g, p, ns)
    }
}

/// What a whole generation contributes, walk by walk in frontier order.
pub open spec fn gen_of(g: GraphV, ps: Seq<PathV>) -> (Seq<PathV>, Seq<PathV>)
    decreases ps.len(),
{
    if ps.len() == 0 {
        (Seq::empty(), Seq::empty())
    } else {
        let front = gen_of(g, ps.drop_last());
        let one = step_of(g, ps.last());
        (front.0 + one.0, front.1 + one.1)
    }
}

/// The terminal walks a frontier produces, generation after generation,
/// until it drains. The fuel bounds the generations; on a frontier of
/// simple walks a fuel of the node count plus one is never exhausted.
pub open spec fn run_gens(g: GraphV, frontier: Seq<PathV>, fuel: nat) -> Seq<PathV>
    decreases fuel,
{
    if frontier.len() == 0 || fuel == 0 {
        Seq::empty()
    } else {
        gen_of(g, frontier).0 + run_gens(g, gen_of(g, frontier).1, (fuel - 1) as nat)
    }
}

/// One length-one walk per declared node, in declaration order.
pub open spec fn seed_views(g: GraphV) -> Seq<PathV> {
    Seq::new(g.nodes.len(), |i: int| PathV { nodes: seq![g.nodes[i]], edges: Seq::empty() })
}

/// The complete production sequence of the enumerator on a graph: every
/// terminal walk, in the order the generations finalize them.
pub open spec fn enumeration(g: GraphV) -> Seq<PathV> {
    run_gens(g, seed_views(g), (g.nodes.len() + 1) as nat)
}

/// The indices of every edge leaving the node, in declaration order.
pub fn get_neighbors(graph: &Graph, node: &crate::model::Node) -> (r: Vec<usize>)
    ensures
        r@.map_values(|u: usize| u as int) == neighbor_idxs(graph@.edges, node@),
        forall|k: int|
            0 <= k < r@.len() ==> 0 <= #[trigger] r@[k] < graph@.edges.len() && graph@.edges[r@[k]
                as int].from == node@,
        forall|k1: int, k2: int| 0 <= k1 < k2 < r@.len() ==> r@[k1] < r@[k2],
        forall|i: int|
            0 <= i < graph@.edges.len() && (#[trigger] graph@.edges[i]).from == node@
                ==> exists|k: int| 0 <= k < r@.len() && r@[k] == i,
{
    let mut r: Vec<usize> = Vec::new();
    let mut i: usize = 0;
    while i < graph.edges.len()
        invariant
            0 <= i <= graph.edges@.len(),
            r@.map_values(|u: usize| u as int) == neighbor_idxs(
                graph@.edges.take(i as int),
                node@,
            ),
            forall|k: int|
                0 <= k < r@.len() ==> 0 <= #[trigger] r@[k] < i && graph@.edges[r@[k]
                    as int].from == node@,
            forall|k1: int, k2: int| 0 <= k1 < k2 < r@.len() ==> r@[k1] < r@[k2],
            forall|j: int|
                0 <= j < i && (#[trigger] graph@.edges[j]).from == node@ ==> exists|k: int|
                    0 <= k < r@.len() && r@[k] == j,
        decreases graph.edges@.len() - i,
    {
        proof {
            assert(graph@.edges.take(i + 1).drop_last() =~= graph@.edges.take(i as int));
            assert(graph@.edges.take(i + 1).last() == graph@.edges[i as int]);
        }
        if ident_eq(&graph.edges[i].from, &node.id) {
            let ghost before = r@;
            r.push(i);
            proof {
                assert(r@[r@.len() - 1] == i as usize);
                assert(forall|k: int| 0 <= k < before.len() ==> r@[k] == before[k]);
                assert(r@.map_values(|u: usize| u as int) =~= before.map_values(
                    |u: usize| u as int,
                ).push(i as int));
            }
        }
        i = i + 1;
    }
    proof {
        assert(graph@.edges.take(graph@.edges.len() as int) =~= graph@.edges);
    }
    r
}

/// For the walk's last node, every outgoing edge paired with the index of
/// the node it reaches: the successors of the walk.
pub fn get_nexts(graph: &Graph, path: &Path) -> (r: Vec<(usize, usize)>)
    requires
        graph@.wf(),
        path@.nodes.len() >= 1,
        graph@.nodes.contains(path@.nodes.last()),
    ensures
        r@.map_values(|q: (usize, usize)| (q.0 as int, q.1 as int)) == nexts_of(
            graph@,
            path@.nodes.last(),
        ),
        forall|k: int|
            0 <= k < r@.len() ==> {
                let (ni, ei) = #[trigger] r@[k];
                &&& 0 <= ei < graph@.edges.len()
                &&& graph@.edges[ei as int].from == path@.nodes.last()
                &&& 0 <= ni < graph@.nodes.len()
                &&& graph@.nodes[ni as int] == graph@.edges[ei as int].to
            },
        forall|i: int|
            0 <= i < graph@.edges.len() && (#[trigger] graph@.edges[i]).from
                == path@.nodes.last() ==> exists|k: int| 0 <= k < r@.len() && r@[k].1 == i,
        r@.len() == 0 <==> !has_successor(graph@, path@.nodes.last()),
{
    let last = path.nodes.len() - 1;
    proof {
        assert(path@.nodes[last as int] == path@.nodes.last());
    }
    let neighbors = get_neighbors(graph, &path.nodes[last]);
    let mut r: Vec<(usize, usize)> = Vec::new();
    let mut k: usize = 0;
    while k < neighbors.len()
        invariant
            graph@.wf(),
            path@.nodes.len() >= 1,
            r@.len() == k,
            0 <= k <= neighbors@.len(),
            neighbors@.map_values(|u: usize| u as int) == neighbor_idxs(
                graph@.edges,
                path@.nodes.last(),
            ),
            forall|k2: int|
                0 <= k2 < neighbors@.len() ==> 0 <= #[trigger] neighbors@[k2]
                    < graph@.edges.len() && graph@.edges[neighbors@[k2] as int].from
                    == path@.nodes.last(),
            forall|k2: int|
                0 <= k2 < k ==> {
                    let (ni, ei) = #[trigger] r@[k2];
                    &&& ei == neighbors@[k2]
                    &&& 0 <= ni < graph@.nodes.len()
                    &&& graph@.nodes[ni as int] == graph@.edges[ei as int].to
                    &&& ni as int == first_index(graph@.nodes, graph@.edges[ei as int].to)
                },
        decreases neighbors@.len() - k,
    {
        let ei = neighbors[k];
        match graph.get_node(&graph.edges[ei].to) {
            Some(ni) => {
                proof {
                    lemma_first_index(graph@.nodes, graph@.edges[ei as int].to, ni as int);
                }
                let ghost before = r@;
                r.push((ni, ei));
                proof {
                    assert(forall|k2: int| 0 <= k2 < before.len() ==> r@[k2] == before[k2]);
                    assert(r@[k as int] == (ni, ei));
                }
            },
            None => {
                proof {
                    assert(graph@.edges[ei as int].from == path@.nodes.last());
                    assert(graph@.nodes.contains(graph@.edges[ei as int].to));
                    assert(false);
                }
            },
        }
        k = k + 1;
    }
    proof {
        assert forall|k2: int| 0 <= k2 < r@.len() implies r@.map_values(
            |q: (usize, usize)| (q.0 as int, q.1 as int),
        )[k2] == nexts_of(graph@, path@.nodes.last())[k2] by {
            assert(neighbor_idxs(graph@.edges, path@.nodes.last())[k2] == neighbors@[k2] as int);
        }
        assert(r@.map_values(|q: (usize, usize)| (q.0 as int, q.1 as int)) =~= nexts_of(
            graph@,
            path@.nodes.last(),
        ));
        assert forall|i: int|
            0 <= i < graph@.edges.len() && (#[trigger] graph@.edges[i]).from
                == path@.nodes.last() implies exists|k2: int| 0 <= k2 < r@.len() && r@[k2].1
            == i by {
            let kn = choose|kn: int| 0 <= kn < neighbors@.len() && neighbors@[kn] == i;
            assert(r@[kn].1 == i);
        }
        if r@.len() == 0 {
            assert(!has_successor(graph@, path@.nodes.last())) by {
                if has_successor(graph@, path@.nodes.last()) {
                    let i = choose|i: int|
                        0 <= i < graph@.edges.len() && (#[trigger] graph@.edges[i]).from
                            == path@.nodes.last();
                    assert(exists|k2: int| 0 <= k2 < r@.len() && r@[k2].1 == i);
                }
            }
        } else {
            let (ni0, ei0) = r@[0];
            assert(graph@.edges[ei0 as int].from == path@.nodes.last());
            assert(has_successor(graph@, path@.nodes.last()));
        }
    }
    r
}

/// Every walk of the list is a simple walk through `g`: the shape of a
/// frontier.
pub open spec fn all_growing(g: GraphV, ps: Seq<Path>) -> bool {
    forall|k: int|
        0 <= k < ps.len() ==> is_walk(g, (#[trigger] ps[k])@) && is_simple(ps[k]@)
}

/// `q` is some walk of the list, grown by exactly one node and one edge:
/// dropping its last node and last edge gives that walk back.
pub open spec fn extends_one_of(ps: Seq<Path>, q: PathV) -> bool {
    exists|j: int|
        0 <= j < ps.len() && q.nodes.len() == (#[trigger] ps[j])@.nodes.len() + 1
            && q.nodes.drop_last() == ps[j]@.nodes && q.edges.drop_last() == ps[j]@.edges
            && q.nodes[0] == ps[j]@.nodes[0]
}

/// The frontier produced by one generation: simple walks, each an
/// extension of an input walk.
pub open spec fn extended_ok(g: GraphV, inputs: Seq<Path>, outs: Seq<Path>) -> bool {
    forall|k: int|
        0 <= k < outs.len() ==> is_walk(g, (#[trigger] outs[k])@) && is_simple(outs[k]@)
            && extends_one_of(inputs, outs[k]@)
}

/// `u` extends `u0` by terminal walks only, keeping `u0` intact.
pub open spec fn new_terminals_ok(g: GraphV, u0: Seq<Path>, u: Seq<Path>) -> bool {
    &&& u0.len() <= u.len()
    &&& forall|k: int| 0 <= k < u0.len() ==> u[k] == #[trigger] u0[k]
    &&& forall|k: int| u0.len() <= k < u.len() ==> is_terminal_walk(g, (#[trigger] u[k])@)
}

/// Some walk of `v`, at an index at or past `lo`, starts at `start`.
pub open spec fn starts_in(v: Seq<Path>, lo: int, start: IdV) -> bool {
    exists|k: int| lo <= k < v.len() && (#[trigger] v[k])@.nodes[0] == start
}

/// A walk starting at `start` has been finalized this generation or is
/// still in the new frontier.
pub open spec fn handled(u0: Seq<Path>, u: Seq<Path>, ex: Seq<Path>, start: IdV) -> bool {
    starts_in(u, u0.len() as int, start) || starts_in(ex, 0, start)
}

/// Extending a walk along a declared edge yields a walk again.
proof fn lemma_walk_extend(g: GraphV, p: PathV, q: PathV, ni: int, ei: int)
    requires
        is_walk(g, p),
        0 <= ei < g.edges.len(),
        0 <= ni < g.nodes.len(),
        g.edges[ei].from == p.nodes.last(),
        g.nodes[ni] == g.edges[ei].to,
        q.nodes == p.nodes.push(g.nodes[ni]),
        q.edges == p.edges.push(g.edges[ei]),
    ensures
        is_walk(g, q),
        q.nodes.last() == g.nodes[ni],
        q.nodes[0] == p.nodes[0],
        q.nodes.drop_last() == p.nodes,
        q.edges.drop_last() == p.edges,
{
    assert(q.nodes.drop_last() =~= p.nodes);
    assert(q.edges.drop_last() =~= p.edges);
    assert forall|i: int| 0 <= i < q.nodes.len() implies g.nodes.contains(#[trigger] q.nodes[i]) by {
        if i < p.nodes.len() {
            assert(q.nodes[i] == p.nodes[i]);
        } else {
            assert(q.nodes[i] == g.nodes[ni]);
            assert(g.nodes.contains(g.nodes[ni]));
        }
    }
    assert forall|i: int| 0 <= i < q.edges.len() implies g.edges.contains(#[trigger] q.edges[i]) by {
        if i < p.edges.len() {
            assert(q.edges[i] == p.edges[i]);
        } else {
            assert(q.edges[i] == g.edges[ei]);
            assert(g.edges.contains(g.edges[ei]));
        }
    }
    assert forall|i: int| 0 <= i < q.edges.len() implies (#[trigger] q.edges[i]).from == q.nodes[i]
        && q.edges[i].to == q.nodes[i + 1] by {
        if i < p.edges.len() {
            assert(q.edges[i] == p.edges[i] && q.nodes[i] == p.nodes[i] && q.nodes[i + 1]
                == p.nodes[i + 1]);
        } else {
            assert(q.edges[i] == g.edges[ei]);
            assert(q.nodes[i] == p.nodes.last() && q.nodes[i + 1] == g.nodes[ni]);
        }
    }
}

/// Extending a simple walk to a node it has not visited keeps it simple.
proof fn lemma_simple_extend(p: Seq<IdV>, x: IdV)
    requires
        p.no_duplicates(),
        !p.contains(x),
    ensures
        p.push(x).no_duplicates(),
{
    let q = p.push(x);
    assert forall|i: int, j: int|
        0 <= i < q.len() && 0 <= j < q.len() && i != j implies q[i] != q[j] by {
        if i < p.len() && j < p.len() {
            assert(q[i] == p[i] && q[j] == p[j]);
        } else if j == p.len() && i < p.len() {
            assert(q[i] == p[i] && q[j] == x);
        } else if i == p.len() && j < p.len() {
            assert(q[i] == x && q[j] == p[j]);
        }
    }
}

/// A start-node witness survives appending to the list.
proof fn lemma_starts_in_push(v: Seq<Path>, x: Path, lo: int, start: IdV)
    requires
        0 <= lo,
        starts_in(v, lo, start),
    ensures
        starts_in(v.push(x), lo, start),
{
    let k = choose|k: int| lo <= k < v.len() && (#[trigger] v[k])@.nodes[0] == start;
    assert(v.push(x)[k]@.nodes[0] == start);
}

/// Being handled survives finalizing one more walk.
proof fn lemma_handled_push_u(u0: Seq<Path>, u: Seq<Path>, x: Path, ex: Seq<Path>, start: IdV)
    requires
        handled(u0, u, ex, start),
    ensures
        handled(u0, u.push(x), ex, start),
{
    if starts_in(u, u0.len() as int, start) {
        lemma_starts_in_push(u, x, u0.len() as int, start);
    }
}

/// Being handled survives growing the next frontier by one walk.
proof fn lemma_handled_push_ex(u0: Seq<Path>, u: Seq<Path>, ex: Seq<Path>, x: Path, start: IdV)
    requires
        handled(u0, u, ex, start),
    ensures
        handled(u0, u, ex.push(x), start),
{
    if starts_in(ex, 0, start) {
        lemma_starts_in_push(ex, x, 0, start);
    }
}

/// One generation of growth over the whole frontier.
///
/// Each frontier walk is handled as its successors demand: none makes it
/// a dead end, finalized unchanged; a successor equal to its start closes
/// a full cycle, finalized extended; a successor revisiting an interior
/// node finalizes the walk unchanged; any other successor grows the walk
/// into the next frontier. Every walk added to `unextendable_paths` is a
/// terminal walk, the walks already there stay untouched, every returned
/// walk is a one-node extension of a frontier walk, and every frontier
/// walk leaves a trace: a finalized walk or a returned walk with its
/// start node.
pub fn extend_paths(graph: &Graph, paths: Vec<Path>, unextendable_paths: &mut Vec<Path>) -> (r:
    Vec<Path>)
    requires
        graph@.wf(),
        all_growing(graph@, paths@),
    ensures
        path_views(final(unextendable_paths)@) == path_views(old(unextendable_paths)@) + gen_of(
            graph@,
            path_views(paths@),
        ).0,
        path_views(r@) == gen_of(graph@, path_views(paths@)).1,
        new_terminals_ok(graph@, old(unextendable_paths)@, final(unextendable_paths)@),
        extended_ok(graph@, paths@, r@),
        forall|j: int|
            0 <= j < paths@.len() ==> handled(
                old(unextendable_paths)@,
                final(unextendable_paths)@,
                r@,
                (#[trigger] paths@[j])@.nodes[0],
            ),
{
    let ghost u0 = unextendable_paths@;
    let ghost pviews = path_views(paths@);
    let mut extended_paths: Vec<Path> = Vec::new();
    proof {
        assert(pviews.take(0) =~= Seq::<PathV>::empty());
        assert(path_views(unextendable_paths@) =~= path_views(u0) + gen_of(
            graph@,
            pviews.take(0),
        ).0);
        assert(path_views(extended_paths@) =~= gen_of(graph@, pviews.take(0)).1);
    }
    let mut pi: usize = 0;
    while pi < paths.len()
        invariant
            graph@.wf(),
            all_growing(graph@, paths@),
            pviews == path_views(paths@),
            path_views(unextendable_paths@) == path_views(u0) + gen_of(
                graph@,
                pviews.take(pi as int),
            ).0,
            path_views(extended_paths@) == gen_of(graph@, pviews.take(pi as int)).1,
            0 <= pi <= paths@.len(),
            new_terminals_ok(graph@, u0, unextendable_paths@),
            extended_ok(graph@, paths@, extended_paths@),
            forall|j: int|
                0 <= j < pi ==> handled(
                    u0,
                    unextendable_paths@,
                    extended_paths@,
                    (#[trigger] paths@[j])@.nodes[0],
                ),
        decreases paths@.len() - pi,
    {
        let path = &paths[pi];
        let ghost pv = paths@[pi as int]@;
        proof {
            assert(is_walk(graph@, paths@[pi as int]@));
            assert(graph@.nodes.contains(path@.nodes[path@.nodes.len() - 1]));
        }
        let nexts = get_nexts(graph, path);
        let ghost nv = nexts_of(graph@, pv.nodes.last());
        proof {
            assert(path@ == pv);
            assert(nexts@.map_values(|q: (usize, usize)| (q.0 as int, q.1 as int)) == nv);
            assert(pviews.take(pi + 1).drop_last() =~= pviews.take(pi as int));
            assert(pviews.take(pi + 1).last() == pviews[pi as int]);
            assert(pviews[pi as int] == pv);
        }
        if nexts.len() == 0 {
            let ghost ub = unextendable_paths@;
            unextendable_paths.push(path.clone());
            proof {
                assert(unextendable_paths@[ub.len() as int]@ == paths@[pi as int]@);
                assert(is_terminal_walk(graph@, paths@[pi as int]@));
                assert(starts_in(
                    unextendable_paths@,
                    u0.len() as int,
                    paths@[pi as int]@.nodes[0],
                ));
                assert(unextendable_paths@ == ub.push(unextendable_paths@[ub.len() as int]));
                assert forall|j: int| 0 <= j < pi implies handled(
                    u0,
                    unextendable_paths@,
                    extended_paths@,
                    (#[trigger] paths@[j])@.nodes[0],
                ) by {
                    lemma_handled_push_u(
                        u0,
                        ub,
                        unextendable_paths@[ub.len() as int],
                        extended_paths@,
                        paths@[j]@.nodes[0],
                    );
                }
                assert(nv.len() == 0);
                assert(step_of(graph@, pv) == (seq![pv], Seq::<PathV>::empty()));
                assert(path_views(unextendable_paths@) =~= path_views(ub).push(pv));
                assert(path_views(unextendable_paths@) =~= path_views(u0) + gen_of(
                    graph@,
                    pviews.take(pi + 1),
                ).0);
                assert(path_views(extended_paths@) =~= gen_of(graph@, pviews.take(pi + 1)).1);
            }
        } else {
            let ghost u_enter = path_views(unextendable_paths@);
            let ghost e_enter = path_views(extended_paths@);
            proof {
                assert(nv.take(0) =~= Seq::<(int, int)>::empty());
                assert(path_views(unextendable_paths@) =~= u_enter + step_rec(
                    graph@,
                    pv,
                    nv.take(0),
                ).0);
                assert(path_views(extended_paths@) =~= e_enter + step_rec(
                    graph@,
                    pv,
                    nv.take(0),
                ).1);
            }
            let mut qi: usize = 0;
            while qi < nexts.len()
                invariant
                    graph@.wf(),
                    all_growing(graph@, paths@),
                    pviews == path_views(paths@),
                    pv == paths@[pi as int]@,
                    nv == nexts_of(graph@, pv.nodes.last()),
                    nexts@.map_values(|q: (usize, usize)| (q.0 as int, q.1 as int)) == nv,
                    u_enter == path_views(u0) + gen_of(graph@, pviews.take(pi as int)).0,
                    e_enter == gen_of(graph@, pviews.take(pi as int)).1,
                    path_views(unextendable_paths@) == u_enter + step_rec(
                        graph@,
                        pv,
                        nv.take(qi as int),
                    ).0,
                    path_views(extended_paths@) == e_enter + step_rec(
                        graph@,
                        pv,
                        nv.take(qi as int),
                    ).1,
                    0 <= pi < paths@.len(),
                    0 <= qi <= nexts@.len(),
                    nexts@.len() > 0,
                    path == &paths[pi as int],
                    forall|k: int|
                        0 <= k < nexts@.len() ==> {
                            let (ni, ei) = #[trigger] nexts@[k];
                            &&& 0 <= ei < graph@.edges.len()
                            &&& graph@.edges[ei as int].from == paths@[pi as int]@.nodes.last()
                            &&& 0 <= ni < graph@.nodes.len()
                            &&& graph@.nodes[ni as int] == graph@.edges[ei as int].to
                        },
                    new_terminals_ok(graph@, u0, unextendable_paths@),
                    extended_ok(graph@, paths@, extended_paths@),
                    forall|j: int|
                        0 <= j < pi ==> handled(
                            u0,
                            unextendable_paths@,
                            extended_paths@,
                            (#[trigger] paths@[j])@.nodes[0],
                        ),
                    qi > 0 ==> handled(
                        u0,
                        unextendable_paths@,
                        extended_paths@,
                        paths@[pi as int]@.nodes[0],
                    ),
                decreases nexts@.len() - qi,
            {
                let (ni, ei) = nexts[qi];
                let node = &graph.nodes[ni];
                let edge = &graph.edges[ei];
                proof {
                    assert(node@ == graph@.nodes[ni as int]);
                    assert(edge@ == graph@.edges[ei as int]);
                    assert(nexts@.map_values(|q: (usize, usize)| (q.0 as int, q.1 as int))[qi
                        as int] == (ni as int, ei as int));
                    assert(nv[qi as int] == (ni as int, ei as int));
                    assert(nv.take(qi + 1).drop_last() =~= nv.take(qi as int));
                    assert(nv.take(qi + 1).last() == nv[qi as int]);
                }
                if ident_eq(&node.id, &path.nodes[0].id) {
                    let ext = path.clone_extend(node, edge);
                    proof {
                        lemma_walk_extend(
                            graph@,
                            paths@[pi as int]@,
                            ext@,
                            ni as int,
                            ei as int,
                        );
                        assert(ext@.nodes.last() == ext@.nodes[0]);
                        assert(ext@.nodes.drop_last().no_duplicates());
                        assert(is_terminal_walk(graph@, ext@));
                    }
                    let ghost ub = unextendable_paths@;
                    unextendable_paths.push(ext);
                    proof {
                        assert(unextendable_paths@[ub.len() as int]@.nodes[0] == paths@[pi
                            as int]@.nodes[0]);
                        assert(starts_in(
                            unextendable_paths@,
                            u0.len() as int,
                            paths@[pi as int]@.nodes[0],
                        ));
                        assert(unextendable_paths@ == ub.push(
                            unextendable_paths@[ub.len() as int],
                        ));
                        assert forall|j: int| 0 <= j < pi implies handled(
                            u0,
                            unextendable_paths@,
                            extended_paths@,
                            (#[trigger] paths@[j])@.nodes[0],
                        ) by {
                            lemma_handled_push_u(
                                u0,
                                ub,
                                unextendable_paths@[ub.len() as int],
                                extended_paths@,
                                paths@[j]@.nodes[0],
                            );
                        }
                        assert(ext@ =~= extendv(pv, node@, edge@));
                        assert(path_views(unextendable_paths@) =~= path_views(ub).push(ext@));
                        assert(path_views(unextendable_paths@) =~= u_enter + step_rec(
                            graph@,
                            pv,
                            nv.take(qi + 1),
                        ).0);
                        assert(path_views(extended_paths@) =~= e_enter + step_rec(
                            graph@,
                            pv,
                            nv.take(qi + 1),
                        ).1);
                    }
                } else if path.contains_node(&node.id) {
                    let ghost ub = unextendable_paths@;
                    unextendable_paths.push(path.clone());
                    proof {
                        assert(paths@[pi as int]@.nodes.contains(graph@.edges[ei as int].to));
                        assert(graph@.edges[ei as int].to != paths@[pi as int]@.nodes[0]);
                        assert(is_terminal_walk(graph@, paths@[pi as int]@));
                        assert(unextendable_paths@[ub.len() as int]@ == paths@[pi as int]@);
                        assert(starts_in(
                            unextendable_paths@,
                            u0.len() as int,
                            paths@[pi as int]@.nodes[0],
                        ));
                        assert(unextendable_paths@ == ub.push(
                            unextendable_paths@[ub.len() as int],
                        ));
                        assert forall|j: int| 0 <= j < pi implies handled(
                            u0,
                            unextendable_paths@,
                            extended_paths@,
                            (#[trigger] paths@[j])@.nodes[0],
                        ) by {
                            lemma_handled_push_u(
                                u0,
                                ub,
                                unextendable_paths@[ub.len() as int],
                                extended_paths@,
                                paths@[j]@.nodes[0],
                            );
                        }
                        assert(path_views(unextendable_paths@) =~= path_views(ub).push(pv));
                        assert(path_views(unextendable_paths@) =~= u_enter + step_rec(
                            graph@,
                            pv,
                            nv.take(qi + 1),
                        ).0);
                        assert(path_views(extended_paths@) =~= e_enter + step_rec(
                            graph@,
                            pv,
                            nv.take(qi + 1),
                        ).1);
                    }
                } else {
                    let ext = path.clone_extend(node, edge);
                    proof {
                        lemma_walk_extend(
                            graph@,
                            paths@[pi as int]@,
                            ext@,
                            ni as int,
                            ei as int,
                        );
                        lemma_simple_extend(paths@[pi as int]@.nodes, node@);
                        assert(is_simple(ext@));
                        assert(ext@.nodes.len() == paths@[pi as int]@.nodes.len() + 1
                            && ext@.nodes.drop_last() == paths@[pi as int]@.nodes
                            && ext@.edges.drop_last() == paths@[pi as int]@.edges
                            && ext@.nodes[0] == paths@[pi as int]@.nodes[0]);
                        assert(extends_one_of(paths@, ext@));
                    }
                    let ghost eb = extended_paths@;
                    extended_paths.push(ext);
                    proof {
                        assert(extended_paths@[eb.len() as int]@.nodes[0] == paths@[pi
                            as int]@.nodes[0]);
                        assert(starts_in(extended_paths@, 0, paths@[pi as int]@.nodes[0]));
                        assert(extended_paths@ == eb.push(extended_paths@[eb.len() as int]));
                        assert forall|j: int| 0 <= j < pi implies handled(
                            u0,
                            unextendable_paths@,
                            extended_paths@,
                            (#[trigger] paths@[j])@.nodes[0],
                        ) by {
                            lemma_handled_push_ex(
                                u0,
                                unextendable_paths@,
                                eb,
                                extended_paths@[eb.len() as int],
                                paths@[j]@.nodes[0],
                            );
                        }
                        assert(ext@ =~= extendv(pv, node@, edge@));
                        assert(path_views(extended_paths@) =~= path_views(eb).push(ext@));
                        assert(path_views(extended_paths@) =~= e_enter + step_rec(
                            graph@,
                            pv,
                            nv.take(qi + 1),
                        ).1);
                        assert(path_views(unextendable_paths@) =~= u_enter + step_rec(
                            graph@,
                            pv,
                            nv.take(qi + 1),
                        ).0);
                    }
                }
                qi = qi + 1;
            }
            proof {
                assert(nv.take(nv.len() as int) =~= nv);
                assert(nv.len() == nexts@.len());
                assert(step_of(graph@, pv) == step_rec(graph@, pv, nv));
                assert(pviews.take(pi + 1).drop_last() =~= pviews.take(pi as int));
                assert(pviews.take(pi + 1).last() == pviews[pi as int]);
                assert(pviews[pi as int] == pv);
                assert(path_views(unextendable_paths@) =~= path_views(u0) + gen_of(
                    graph@,
                    pviews.take(pi + 1),
                ).0);
                assert(path_views(extended_paths@) =~= gen_of(graph@, pviews.take(pi + 1)).1);
            }
        }
        pi = pi + 1;
    }
    proof {
        assert(pviews.take(paths@.len() as int) =~= pviews);
    }
    extended_paths
}

/// The complete terminal-walk set of the graph.
///
/// One length-one walk per declared node seeds the frontier; each
/// generation either finalizes a walk or grows it by one node, so after
/// at most as many generations as there are nodes the frontier drains.
/// Every produced walk is a terminal walk, every declared node starts at
/// least one produced walk, and a graph with a node yields at least one
/// walk.
pub fn terminal_walks(graph: &Graph) -> (r: Vec<Path>)
    requires
        graph@.wf(),
    ensures
        path_views(r@) == enumeration(graph@),
        forall|k: int| 0 <= k < r@.len() ==> is_terminal_walk(graph@, (#[trigger] r@[k])@),
        forall|i: int|
            0 <= i < graph@.nodes.len() ==> starts_in(r@, 0, #[trigger] graph@.nodes[i]),
        graph@.nodes.len() > 0 ==> r@.len() > 0,
{
    let mut frontier: Vec<Path> = Vec::new();
    let mut si: usize = 0;
    while si < graph.nodes.len()
        invariant
            0 <= si <= graph.nodes@.len(),
            frontier@.len() == si,
            forall|k: int|
                0 <= k < si ==> (#[trigger] frontier@[k])@.nodes.len() == 1 && frontier@[k]@.nodes[0]
                    == graph@.nodes[k] && frontier@[k]@.edges.len() == 0,
        decreases graph.nodes@.len() - si,
    {
        let mut seed_nodes: Vec<crate::model::Node> = Vec::new();
        seed_nodes.push(graph.nodes[si].clone());
        let seed_edges: Vec<crate::model::Edge> = Vec::new();
        let seed = Path { nodes: seed_nodes, edges: seed_edges };
        proof {
            assert(seed@.nodes.len() == 1);
            assert(seed@.nodes[0] == graph@.nodes[si as int]);
        }
        frontier.push(seed);
        si = si + 1;
    }
    let mut terminal: Vec<Path> = Vec::new();
    let ghost mut gen: int = 1;
    proof {
        assert forall|k: int| 0 <= k < frontier@.len() implies path_views(frontier@)[k]
            == seed_views(graph@)[k] by {
            assert(frontier@[k]@.nodes =~= seed_views(graph@)[k].nodes);
            assert(frontier@[k]@.edges =~= seed_views(graph@)[k].edges);
            assert(path_views(frontier@)[k] =~= seed_views(graph@)[k]);
        }
        assert(path_views(frontier@) =~= seed_views(graph@));
        assert(path_views(terminal@) =~= Seq::<PathV>::empty());
        assert(enumeration(graph@) =~= path_views(terminal@) + run_gens(
            graph@,
            path_views(frontier@),
            (graph@.nodes.len() + 2 - gen) as nat,
        ));
        assert forall|k: int| 0 <= k < frontier@.len() implies is_walk(
            graph@,
            (#[trigger] frontier@[k])@,
        ) && is_simple(frontier@[k]@) by {
            assert(frontier@[k]@.nodes[0] == graph@.nodes[k]);
            assert(graph@.nodes.contains(graph@.nodes[k]));
            assert forall|i: int| 0 <= i < frontier@[k]@.nodes.len() implies graph@.nodes.contains(
                #[trigger] frontier@[k]@.nodes[i],
            ) by {
                assert(i == 0);
            }
        }
        assert forall|i: int| 0 <= i < graph@.nodes.len() implies starts_in(
            frontier@,
            0,
            #[trigger] graph@.nodes[i],
        ) || starts_in(terminal@, 0, graph@.nodes[i]) by {
            assert(frontier@[i]@.nodes[0] == graph@.nodes[i]);
        }
    }
    while frontier.len() > 0
        invariant
            graph@.wf(),
            1 <= gen,
            gen <= graph@.nodes.len() + 1,
            enumeration(graph@) == path_views(terminal@) + run_gens(
                graph@,
                path_views(frontier@),
                (graph@.nodes.len() + 2 - gen) as nat,
            ),
            all_growing(graph@, frontier@),
            forall|k: int|
                0 <= k < frontier@.len() ==> (#[trigger] frontier@[k])@.nodes.len() == gen,
            forall|k: int|
                0 <= k < terminal@.len() ==> is_terminal_walk(graph@, (#[trigger] terminal@[k])@),
            frontier@.len() > 0 ==> gen <= graph@.nodes.len(),
            forall|i: int|
                0 <= i < graph@.nodes.len() ==> starts_in(frontier@, 0, #[trigger] graph@.nodes[i])
                    || starts_in(terminal@, 0, graph@.nodes[i]),
        decreases graph@.nodes.len() + 1 - gen,
    {
        let ghost t0 = terminal@;
        let ghost f0 = frontier@;
        let ghost fuel0 = (graph@.nodes.len() + 2 - gen) as nat;
        let next = extend_paths(graph, frontier, &mut terminal);
        frontier = next;
        proof {
            gen = gen + 1;
            assert(path_views(f0).len() == f0.len());
            assert(run_gens(graph@, path_views(f0), fuel0) == gen_of(graph@, path_views(f0)).0
                + run_gens(graph@, gen_of(graph@, path_views(f0)).1, (fuel0 - 1) as nat));
            assert((fuel0 - 1) as nat == (graph@.nodes.len() + 2 - gen) as nat);
            assert(enumeration(graph@) =~= path_views(terminal@) + run_gens(
                graph@,
                path_views(frontier@),
                (graph@.nodes.len() + 2 - gen) as nat,
            ));
            assert forall|k: int| 0 <= k < terminal@.len() implies is_terminal_walk(
                graph@,
                (#[trigger] terminal@[k])@,
            ) by {
                if k < t0.len() {
                    assert(terminal@[k] == t0[k]);
                    assert(is_terminal_walk(graph@, t0[k]@));
                }
            }
            assert forall|k: int| 0 <= k < frontier@.len() implies (
            #[trigger] frontier@[k])@.nodes.len() == gen by {
                assert(extends_one_of(f0, frontier@[k]@));
                let j = choose|j: int|
                    0 <= j < f0.len() && frontier@[k]@.nodes.len() == (#[trigger] f0[j])@.nodes.len()
                        + 1 && frontier@[k]@.nodes.drop_last() == f0[j]@.nodes
                        && frontier@[k]@.edges.drop_last() == f0[j]@.edges && frontier@[k]@.nodes[0]
                        == f0[j]@.nodes[0];
                assert(f0[j]@.nodes.len() == gen - 1);
            }
            if frontier@.len() > 0 {
                assert(is_walk(graph@, frontier@[0]@) && is_simple(frontier@[0]@));
                lemma_simple_walk_len(graph@, frontier@[0]@);
            }
            assert forall|i: int| 0 <= i < graph@.nodes.len() implies starts_in(
                frontier@,
                0,
                #[trigger] graph@.nodes[i],
            ) || starts_in(terminal@, 0, graph@.nodes[i]) by {
                let v = graph@.nodes[i];
                if starts_in(f0, 0, v) {
                    let k = choose|k: int| 0 <= k < f0.len() && (#[trigger] f0[k])@.nodes[0] == v;
                    assert(handled(t0, terminal@, frontier@, f0[k]@.nodes[0]));
                    if starts_in(terminal@, t0.len() as int, v) {
                        let k2 = choose|k2: int|
                            t0.len() <= k2 < terminal@.len() && (#[trigger] terminal@[k2])@.nodes[0]
                                == v;
                        assert(0 <= k2 < terminal@.len() && terminal@[k2]@.nodes[0] == v);
                        assert(starts_in(terminal@, 0, v));
                    }
                } else {
                    assert(starts_in(t0, 0, v));
                    let k = choose|k: int| 0 <= k < t0.len() && (#[trigger] t0[k])@.nodes[0] == v;
                    assert(terminal@[k] == t0[k]);
                    assert(starts_in(terminal@, 0, v));
                }
            }
        }
    }
    proof {
        assert(path_views(frontier@).len() == 0);
        assert(run_gens(
            graph@,
            path_views(frontier@),
            (graph@.nodes.len() + 2 - gen) as nat,
        ) =~= Seq::<PathV>::empty());
        assert(path_views(terminal@) =~= enumeration(graph@));
        if graph@.nodes.len() > 0 {
            assert(starts_in(terminal@, 0, graph@.nodes[0]));
            let k = choose|k: int|
                0 <= k < terminal@.len() && (#[trigger] terminal@[k])@.nodes[0] == graph@.nodes[0];
        }
    }
    terminal
}

} // verus!
