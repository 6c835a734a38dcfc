//! Walks through the graph, and the contiguous-subsequence test on their
//! node sequences.

use vstd::prelude::*;

use crate::ident::{ident_eq, IdV, Ident};
use crate::model::{edge_views, node_views, Edge, EdgeV, Node};

verus! {

/// Mathematical value of a walk: the identifiers of its nodes in order,
/// and the endpoint pairs of its edges in order.
#[verifier::ext_equal]
pub ghost struct PathV {
    pub nodes: Seq<IdV>,
    pub edges: Seq<EdgeV>,
}

/// A walk: the nodes visited in order, and the edges taken between them.
/// A walk's identity for comparison is its node sequence alone; the edges
/// are structural decoration for output.
pub struct Path {
    pub nodes: Vec<Node>,
    pub edges: Vec<Edge>,
}

impl View for Path {
    type V = PathV;

    open spec fn view(&self) -> PathV {
        PathV { nodes: node_views(self.nodes@), edges: edge_views(self.edges@) }
    }
}

impl Clone for Path {
    fn clone(&self) -> (r: Self)
        ensures
            r@ == self@,
    {
        let nodes = self.nodes.clone();
        let edges = self.edges.clone();
        proof {
            assert forall|i: int| 0 <= i < nodes@.len() implies nodes@[i]@ == self.nodes@[i]@ by {
                assert(cloned(self.nodes@[i], nodes@[i]));
            }
            assert(node_views(nodes@) =~= node_views(self.nodes@));
            assert forall|i: int| 0 <= i < edges@.len() implies edges@[i]@ == self.edges@[i]@ by {
                assert(cloned(self.edges@[i], edges@[i]));
            }
            assert(edge_views(edges@) =~= edge_views(self.edges@));
        }
        Path { nodes, edges }
    }
}

/// The walk views of a walk list.
pub open spec fn path_views(ps: Seq<Path>) -> Seq<PathV> {
    ps.map_values(|p: Path| p@)
}

/// Whether `a` is the contiguous block of `b` that starts at offset `i`.
pub open spec fn subpath_at(a: Seq<IdV>, b: Seq<IdV>, i: int) -> bool {
    0 <= i <= b.len() - a.len() && b.subrange(i, i + a.len()) == a
}

/// Whether `a` occurs as a contiguous block inside `b` (equality included).
pub open spec fn is_subpath(a: Seq<IdV>, b: Seq<IdV>) -> bool {
    exists|i: int| subpath_at(a, b, i)
}

/// A contiguous block of `b` that is not the whole of `b`.
pub open spec fn is_strict_subpath(a: Seq<IdV>, b: Seq<IdV>) -> bool {
    is_subpath(a, b) && a != b
}

/// `a` occurs inside itself, at offset zero.
pub proof fn lemma_subpath_refl(a: Seq<IdV>)
    ensures
        is_subpath(a, a),
{
    assert(a.subrange(0, a.len() as int) =~= a);
    assert(subpath_at(a, a, 0));
}

/// Whether the node window of `sup` starting at `at` equals `sub`'s nodes.
fn window_eq(sub: &Vec<Node>, sup: &Vec<Node>, at: usize) -> (r: bool)
    requires
        at + sub@.len() <= sup@.len(),
    ensures
        r == (node_views(sup@).subrange(at as int, at + sub@.len()) == node_views(sub@)),
{
    proof {
        assert(sup.len() == sup@.len());
    }
    let mut j: usize = 0;
    while j < sub.len()
        invariant
            at + sub@.len() <= sup@.len(),
            sup@.len() <= usize::MAX,
            0 <= j <= sub@.len(),
            forall|j2: int| 0 <= j2 < j ==> node_views(sup@)[at + j2] == node_views(sub@)[j2],
        decreases sub@.len() - j,
    {
        if !ident_eq(&sup[at + j].id, &sub[j].id) {
            proof {
                let w = node_views(sup@).subrange(at as int, at + sub@.len());
                assert(w[j as int] == node_views(sup@)[at + j]);
                assert(w != node_views(sub@));
            }
            return false;
        }
        j = j + 1;
    }
    proof {
        assert(node_views(sup@).subrange(at as int, at + sub@.len()) =~= node_views(sub@));
    }
    true
}

impl Path {
    /// A copy of the walk, grown by one node and the edge taken to it.
    pub fn clone_extend(&self, node: &Node, edge: &Edge) -> (r: Path)
        ensures
            r@.nodes == self@.nodes.push(node@),
            r@.edges == self@.edges.push(edge@),
    {
        let mut extended = self.clone();
        let ghost before_nodes = extended@.nodes;
        let ghost before_edges = extended@.edges;
        extended.nodes.push(node.clone());
        extended.edges.push(edge.clone());
        proof {
            assert(node_views(extended.nodes@) =~= before_nodes.push(node@));
            assert(edge_views(extended.edges@) =~= before_edges.push(edge@));
        }
        extended
    }

    /// Whether some node of the walk carries the identifier.
    pub fn contains_node(&self, id: &Ident) -> (r: bool)
        ensures
            r == self@.nodes.contains(id@),
    {
        let mut k: usize = 0;
        while k < self.nodes.len()
            invariant
                0 <= k <= self.nodes@.len(),
                forall|j: int| 0 <= j < k ==> self@.nodes[j] != id@,
            decreases self.nodes@.len() - k,
        {
            if ident_eq(&self.nodes[k].id, id) {
                proof {
                    assert(self@.nodes[k as int] == id@);
                }
                return true;
            }
            k = k + 1;
        }
        false
    }

    /// Whether this walk's node sequence occurs as a contiguous block
    /// inside the other walk's node sequence (equal sequences included).
    pub fn is_subpath_of(&self, other: &Path) -> (r: bool)
        ensures
            r == is_subpath(self@.nodes, other@.nodes),
    {
        let len = self.nodes.len();
        let other_len = other.nodes.len();
        if len > other_len {
            return false;
        }
        if len == 0 {
            proof {
                assert(other@.nodes.subrange(0, 0) =~= self@.nodes);
                assert(subpath_at(self@.nodes, other@.nodes, 0));
            }
            return true;
        }
        let mut i: usize = 0;
        while i <= other_len - len
            invariant
                len == self.nodes@.len(),
                other_len == other.nodes@.len(),
                1 <= len <= other_len,
                0 <= i <= other_len - len + 1,
                forall|i2: int| 0 <= i2 < i ==> !subpath_at(self@.nodes, other@.nodes, i2),
            decreases other_len - len + 1 - i,
        {
            if window_eq(&self.nodes, &other.nodes, i) {
                proof {
                    assert(subpath_at(self@.nodes, other@.nodes, i as int));
                }
                return true;
            }
            proof {
                assert(!subpath_at(self@.nodes, other@.nodes, i as int));
            }
            i = i + 1;
        }
        false
    }
}

} // verus!
