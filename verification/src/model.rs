//! The typed graph model: nodes, edges, the graph, and its construction
//! from the parser's flat statement list.

use vstd::prelude::*;

use crate::dot::{clone_dot_edge, clone_dot_node};
use crate::ident::{ident_eq, IdV, Ident};

verus! {

/// A declared node: its identifier, and the dot statement it came from
/// (carried through unread, for output fidelity).
pub struct Node {
    pub id: Ident,
    pub raw: graphviz_rust::dot_structures::Node,
}

impl View for Node {
    type V = IdV;

    open spec fn view(&self) -> IdV {
        self.id@
    }
}

impl Clone for Node {
    fn clone(&self) -> (r: Self)
        ensures
            r@ == self@,
    {
        Node { id: self.id.clone(), raw: clone_dot_node(&self.raw) }
    }
}

/// Mathematical value of an edge: its two endpoint identifiers.
#[verifier::ext_equal]
pub ghost struct EdgeV {
    pub from: IdV,
    pub to: IdV,
}

/// A declared edge between two plainly named endpoints, with the dot
/// statement it came from (carried through unread).
pub struct Edge {
    pub from: Ident,
    pub to: Ident,
    pub raw: graphviz_rust::dot_structures::Edge,
}

impl View for Edge {
    type V = EdgeV;

    open spec fn view(&self) -> EdgeV {
        EdgeV { from: self.from@, to: self.to@ }
    }
}

impl Clone for Edge {
    fn clone(&self) -> (r: Self)
        ensures
            r@ == self@,
    {
        Edge { from: self.from.clone(), to: self.to.clone(), raw: clone_dot_edge(&self.raw) }
    }
}

/// A flattened dot statement, as the parser adapter hands it over.
pub enum RawStmt {
    /// A plain attribute statement, stored verbatim.
    Attr(graphviz_rust::dot_structures::Attribute),
    /// An attribute-block statement, stored verbatim.
    GAttrs(graphviz_rust::dot_structures::GraphAttributes),
    /// A node declaration.
    NodeDecl(Node),
    /// An edge declaration between two plain node endpoints.
    EdgeDecl(Edge),
    /// A nested subgraph, or an edge with a subgraph endpoint: unsupported.
    SubgraphDecl,
    /// A multi-hop edge chain: unsupported.
    ChainDecl,
}

/// Why an input was rejected.
#[derive(Debug)]
pub enum GraphError {
    /// The text does not parse as a dot graph; carries the parser's message.
    Parse(String),
    /// A nested subgraph (or an edge with a subgraph endpoint) appeared.
    UnsupportedSubgraph,
    /// A multi-hop edge chain appeared.
    UnsupportedChain,
    /// An edge endpoint names no declared node.
    UndeclaredEndpoint,
}

/// The identifier sequence of a node list.
pub open spec fn node_views(ns: Seq<Node>) -> Seq<IdV> {
    ns.map_values(|n: Node| n@)
}

/// The endpoint-pair sequence of an edge list.
pub open spec fn edge_views(es: Seq<Edge>) -> Seq<EdgeV> {
    es.map_values(|e: Edge| e@)
}

/// Mathematical value of a graph: kind, strictness, and the identifier
/// sequences of its nodes and edges, in declaration order.
#[verifier::ext_equal]
pub ghost struct GraphV {
    pub directed: bool,
    pub strict: bool,
    pub nodes: Seq<IdV>,
    pub edges: Seq<EdgeV>,
}

impl GraphV {
    /// Every edge endpoint resolves to a declared node.
    pub open spec fn wf(self) -> bool {
        forall|i: int|
            0 <= i < self.edges.len() ==> self.nodes.contains(#[trigger] self.edges[i].from)
                && self.nodes.contains(self.edges[i].to)
    }
}

/// The flattened graph: kind, strictness, pass-through attribute blocks,
/// node list and edge list, all in declaration order.
pub struct Graph {
    pub directed: bool,
    pub strict: bool,
    pub attributes: Vec<graphviz_rust::dot_structures::Attribute>,
    pub graph_attributes: Vec<graphviz_rust::dot_structures::GraphAttributes>,
    pub nodes: Vec<Node>,
    pub edges: Vec<Edge>,
}

impl View for Graph {
    type V = GraphV;

    open spec fn view(&self) -> GraphV {
        GraphV {
            directed: self.directed,
            strict: self.strict,
            nodes: node_views(self.nodes@),
            edges: edge_views(self.edges@),
        }
    }
}

/// The index of the first node in the list carrying the identifier, if any.
pub fn find_ident(nodes: &Vec<Node>, id: &Ident) -> (r: Option<usize>)
    ensures
        match r {
            Some(k) => 0 <= k < nodes@.len() && nodes@[k as int]@ == id@ && forall|j: int|
                0 <= j < k ==> nodes@[j]@ != id@,
            None => forall|j: int| 0 <= j < nodes@.len() ==> nodes@[j]@ != id@,
        },
{
    let mut k: usize = 0;
    while k < nodes.len()
        invariant
            0 <= k <= nodes@.len(),
            forall|j: int| 0 <= j < k ==> nodes@[j]@ != id@,
        decreases nodes@.len() - k,
    {
        if ident_eq(&nodes[k].id, id) {
            return Some(k);
        }
        k = k + 1;
    }
    None
}

impl Graph {
    /// The first declared node carrying the identifier, if any. For a
    /// well-formed graph, every edge endpoint finds one.
    pub fn get_node(&self, id: &Ident) -> (r: Option<usize>)
        ensures
            match r {
                Some(k) => 0 <= k < self@.nodes.len() && self@.nodes[k as int] == id@
                    && forall|j: int| 0 <= j < k ==> self@.nodes[j] != id@,
                None => forall|j: int| 0 <= j < self@.nodes.len() ==> self@.nodes[j] != id@,
            },
    {
        find_ident(&self.nodes, id)
    }
}

/// Whether a statement is one of the two unsupported constructs.
pub open spec fn stmt_bad(st: RawStmt) -> bool {
    st is SubgraphDecl || st is ChainDecl
}

/// No unsupported construct anywhere in the statement list.
pub open spec fn no_unsupported(s: Seq<RawStmt>) -> bool {
    forall|i: int| 0 <= i < s.len() ==> !stmt_bad(#[trigger] s[i])
}

/// The identifiers of the node declarations, in statement order.
pub open spec fn stmt_nodes(s: Seq<RawStmt>) -> Seq<IdV>
    decreases s.len(),
{
    if s.len() == 0 {
        Seq::empty()
    } else {
        match s.last() {
            RawStmt::NodeDecl(n) => stmt_nodes(s.drop_last()).push(n@),
            _ => stmt_nodes(s.drop_last()),
        }
    }
}

/// The endpoint pairs of the edge declarations, in statement order.
pub open spec fn stmt_edges(s: Seq<RawStmt>) -> Seq<EdgeV>
    decreases s.len(),
{
    if s.len() == 0 {
        Seq::empty()
    } else {
        match s.last() {
            RawStmt::EdgeDecl(e) => stmt_edges(s.drop_last()).push(e@),
            _ => stmt_edges(s.drop_last()),
        }
    }
}

/// The number of plain attribute statements in the list.
pub open spec fn attr_count(s: Seq<RawStmt>) -> nat
    decreases s.len(),
{
    if s.len() == 0 {
        0
    } else {
        match s.last() {
            RawStmt::Attr(_) => attr_count(s.drop_last()) + 1,
            _ => attr_count(s.drop_last()),
        }
    }
}

/// The number of attribute-block statements in the list.
pub open spec fn gattr_count(s: Seq<RawStmt>) -> nat
    decreases s.len(),
{
    if s.len() == 0 {
        0
    } else {
        match s.last() {
            RawStmt::GAttrs(_) => gattr_count(s.drop_last()) + 1,
            _ => gattr_count(s.drop_last()),
        }
    }
}

/// Flattens the parser's statement list into a graph.
///
/// Attribute statements are stored verbatim; node and edge declarations
/// populate the node and edge lists in order. The two unsupported
/// constructs reject the whole input, the first one found naming the
/// error; after that, an edge endpoint that names no declared node rejects
/// the input as internally inconsistent, so that lookups during
/// enumeration can never fail.
pub fn deconstruct_graph(directed: bool, strict: bool, stmts: Vec<RawStmt>) -> (r: Result<
    Graph,
    GraphError,
>)
    ensures
        match r {
            Ok(g) => {
                &&& no_unsupported(stmts@)
                &&& g@.directed == directed
                &&& g@.strict == strict
                &&& g@.nodes == stmt_nodes(stmts@)
                &&& g@.edges == stmt_edges(stmts@)
                &&& g.attributes@.len() == attr_count(stmts@)
                &&& g.graph_attributes@.len() == gattr_count(stmts@)
                &&& g@.wf()
            },
            Err(GraphError::UnsupportedSubgraph) => exists|i: int|
                0 <= i < stmts@.len() && stmts@[i] is SubgraphDecl && forall|j: int|
                    0 <= j < i ==> !stmt_bad(#[trigger] stmts@[j]),
            Err(GraphError::UnsupportedChain) => exists|i: int|
                0 <= i < stmts@.len() && stmts@[i] is ChainDecl && forall|j: int|
                    0 <= j < i ==> !stmt_bad(#[trigger] stmts@[j]),
            Err(GraphError::UndeclaredEndpoint) => no_unsupported(stmts@) && exists|k: int|
                0 <= k < stmt_edges(stmts@).len() && (!stmt_nodes(stmts@).contains(
                    #[trigger] stmt_edges(stmts@)[k].from,
                ) || !stmt_nodes(stmts@).contains(stmt_edges(stmts@)[k].to)),
            Err(GraphError::Parse(_)) => false,
        },
{
    let ghost s = stmts@;
    let mut attributes: Vec<graphviz_rust::dot_structures::Attribute> = Vec::new();
    let mut graph_attributes: Vec<graphviz_rust::dot_structures::GraphAttributes> = Vec::new();
    let mut nodes: Vec<Node> = Vec::new();
    let mut edges: Vec<Edge> = Vec::new();
    let mut i: usize = 0;
    while i < stmts.len()
        invariant
            s == stmts@,
            0 <= i <= s.len(),
            forall|j: int| 0 <= j < i ==> !stmt_bad(#[trigger] s[j]),
            node_views(nodes@) == stmt_nodes(s.take(i as int)),
            edge_views(edges@) == stmt_edges(s.take(i as int)),
            attributes@.len() == attr_count(s.take(i as int)),
            graph_attributes@.len() == gattr_count(s.take(i as int)),
        decreases s.len() - i,
    {
        proof {
            assert(s.take(i + 1).drop_last() =~= s.take(i as int));
            assert(s.take(i + 1).last() == s[i as int]);
        }
        match &stmts[i] {
            RawStmt::Attr(a) => {
                attributes.push(crate::dot::clone_dot_attr(a));
            },
            RawStmt::GAttrs(g) => {
                graph_attributes.push(crate::dot::clone_dot_gattrs(g));
            },
            RawStmt::NodeDecl(n) => {
                let ghost before = node_views(nodes@);
                nodes.push(n.clone());
                proof {
                    assert(node_views(nodes@) =~= before.push(n@));
                }
            },
            RawStmt::EdgeDecl(e) => {
                let ghost before = edge_views(edges@);
                edges.push(e.clone());
                proof {
                    assert(edge_views(edges@) =~= before.push(e@));
                }
            },
            RawStmt::SubgraphDecl => {
                return Err(GraphError::UnsupportedSubgraph);
            },
            RawStmt::ChainDecl => {
                return Err(GraphError::UnsupportedChain);
            },
        }
        i = i + 1;
    }
    proof {
        assert(s.take(s.len() as int) =~= s);
    }
    let mut k: usize = 0;
    while k < edges.len()
        invariant
            s == stmts@,
            node_views(nodes@) == stmt_nodes(s),
            edge_views(edges@) == stmt_edges(s),
            attributes@.len() == attr_count(s),
            graph_attributes@.len() == gattr_count(s),
            0 <= k <= edges@.len(),
            forall|j: int|
                0 <= j < k ==> stmt_nodes(s).contains(#[trigger] edge_views(edges@)[j].from)
                    && stmt_nodes(s).contains(edge_views(edges@)[j].to),
            forall|j: int| 0 <= j < s.len() ==> !stmt_bad(#[trigger] s[j]),
        decreases edges@.len() - k,
    {
        proof {
            assert(stmt_edges(s)[k as int] == edges@[k as int]@);
            assert(forall|j: int|
                0 <= j < stmt_nodes(s).len() ==> stmt_nodes(s)[j] == nodes@[j]@);
        }
        match find_ident(&nodes, &edges[k].from) {
            None => {
                proof {
                    assert(!stmt_nodes(s).contains(stmt_edges(s)[k as int].from));
                    assert(exists|m: int|
                        0 <= m < stmt_edges(s).len() && (!stmt_nodes(s).contains(
                            #[trigger] stmt_edges(s)[m].from,
                        ) || !stmt_nodes(s).contains(stmt_edges(s)[m].to)));
                }
                return Err(GraphError::UndeclaredEndpoint);
            },
            Some(kf) => {
                proof {
                    assert(stmt_nodes(s)[kf as int] == nodes@[kf as int]@);
                    assert(stmt_nodes(s).contains(edge_views(edges@)[k as int].from));
                }
            },
        }
        match find_ident(&nodes, &edges[k].to) {
            None => {
                proof {
                    assert(!stmt_nodes(s).contains(stmt_edges(s)[k as int].to));
                    assert(exists|m: int|
                        0 <= m < stmt_edges(s).len() && (!stmt_nodes(s).contains(
                            #[trigger] stmt_edges(s)[m].from,
                        ) || !stmt_nodes(s).contains(stmt_edges(s)[m].to)));
                }
                return Err(GraphError::UndeclaredEndpoint);
            },
            Some(kt) => {
                proof {
                    assert(stmt_nodes(s)[kt as int] == nodes@[kt as int]@);
                    assert(stmt_nodes(s).contains(edge_views(edges@)[k as int].to));
                }
            },
        }
        k = k + 1;
    }
    Ok(Graph { directed, strict, attributes, graph_attributes, nodes, edges })
}

} // verus!
