//! Trusted boundary around the graphviz-rust crate.
//!
//! The dot values themselves (statements, attributes, identifiers) are opaque
//! here; each wrapper only converts between them and the crate's own types,
//! one constructor or one field at a time. Everything that decides or
//! computes on the converted values is verified elsewhere.

use vstd::prelude::*;

use crate::ident::{IdKind, Ident};
use crate::model::{Edge, Node, RawStmt};
use graphviz_rust::dot_structures::Attribute as DsAttribute;
use graphviz_rust::dot_structures::Edge as DsEdge;
use graphviz_rust::dot_structures::EdgeTy;
use graphviz_rust::dot_structures::Graph as DsGraph;
use graphviz_rust::dot_structures::GraphAttributes as DsGraphAttributes;
use graphviz_rust::dot_structures::Id as DsId;
use graphviz_rust::dot_structures::Node as DsNode;
use graphviz_rust::dot_structures::Stmt as DsStmt;
use graphviz_rust::dot_structures::Vertex;
use graphviz_rust::printer::DotPrinter;
use graphviz_rust::printer::PrinterContext;

verus! {

#[verifier::external_type_specification]
#[verifier::external_body]
pub struct ExDsGraph(DsGraph);

#[verifier::external_type_specification]
#[verifier::external_body]
pub struct ExDsStmt(DsStmt);

#[verifier::external_type_specification]
#[verifier::external_body]
pub struct ExDsNode(DsNode);

#[verifier::external_type_specification]
#[verifier::external_body]
pub struct ExDsEdge(DsEdge);

#[verifier::external_type_specification]
#[verifier::external_body]
pub struct ExDsAttribute(DsAttribute);

#[verifier::external_type_specification]
#[verifier::external_body]
pub struct ExDsGraphAttributes(DsGraphAttributes);

#[verifier::external_type_specification]
#[verifier::external_body]
pub struct ExDsId(DsId);

/// Whether a text is a well-formed dot graph description: exactly the
/// texts on which the parser succeeds. The answer depends on the
/// characters alone.
pub uninterp spec fn dot_parses(s: Seq<char>) -> bool;

/// Relies on graphviz_rust::parse: turns dot text into a parsed graph, or
/// into a message naming the syntax fault. Success depends on the text
/// alone; `dot_parses` names exactly the accepted texts.
pub assume_specification[ graphviz_rust::parse ](dot: &str) -> (r: Result<DsGraph, String>)
    ensures
        r is Ok <==> dot_parses(dot@),
;

/// Relies on the dot-structures Graph enum: takes its two variants apart
/// into kind (true for a digraph), strictness, source identifier and
/// statement list.
#[verifier::external_body]
pub(crate) fn graph_parts(g: DsGraph) -> (bool, bool, Ident, Vec<DsStmt>) {
    match g {
        DsGraph::Graph { id, strict, stmts } => (false, strict, ident_of(&id), stmts),
        DsGraph::DiGraph { id, strict, stmts } => (true, strict, ident_of(&id), stmts),
    }
}

/// Relies on the dot-structures Id enum: copies out its flavour and text.
#[verifier::external_body]
pub(crate) fn ident_of(id: &DsId) -> Ident {
    match id {
        DsId::Html(t) => Ident { kind: IdKind::Html, text: t.clone() },
        DsId::Escaped(t) => Ident { kind: IdKind::Escaped, text: t.clone() },
        DsId::Plain(t) => Ident { kind: IdKind::Plain, text: t.clone() },
        DsId::Anonymous(t) => Ident { kind: IdKind::Anonymous, text: t.clone() },
    }
}

/// Relies on the dot-structures Stmt, EdgeTy and Vertex enums: sorts a
/// statement into the crate's own statement type, moving its payload. An
/// edge between two plain node endpoints keeps its endpoint identifiers; a
/// subgraph, an edge touching a subgraph, and a multi-hop chain are only
/// tagged as such.
#[verifier::external_body]
pub(crate) fn classify_stmt(s: DsStmt) -> RawStmt {
    match s {
        DsStmt::Attribute(a) => RawStmt::Attr(a),
        DsStmt::GAttribute(g) => RawStmt::GAttrs(g),
        DsStmt::Node(n) => RawStmt::NodeDecl(Node { id: ident_of(&n.id.0), raw: n }),
        DsStmt::Subgraph(_) => RawStmt::SubgraphDecl,
        DsStmt::Edge(e) => match &e.ty {
            EdgeTy::Pair(Vertex::N(a), Vertex::N(b)) => {
                RawStmt::EdgeDecl(Edge { from: ident_of(&a.0), to: ident_of(&b.0), raw: e })
            },
            EdgeTy::Pair(_, _) => RawStmt::SubgraphDecl,
            EdgeTy::Chain(_) => RawStmt::ChainDecl,
        },
    }
}

/// Relies on the derived Clone of dot-structures' Node: a field-for-field copy.
#[verifier::external_body]
pub(crate) fn clone_dot_node(n: &DsNode) -> DsNode {
    n.clone()
}

/// Relies on the derived Clone of dot-structures' Edge: a field-for-field copy.
#[verifier::external_body]
pub(crate) fn clone_dot_edge(e: &DsEdge) -> DsEdge {
    e.clone()
}

/// Relies on the derived Clone of dot-structures' Attribute: a
/// field-for-field copy.
#[verifier::external_body]
pub(crate) fn clone_dot_attr(a: &DsAttribute) -> DsAttribute {
    a.clone()
}

/// Relies on the derived Clone of dot-structures' GraphAttributes: a
/// field-for-field copy.
#[verifier::external_body]
pub(crate) fn clone_dot_gattrs(g: &DsGraphAttributes) -> DsGraphAttributes {
    g.clone()
}

/// Relies on the dot-structures Stmt enum and the derived Clone of
/// Attribute: wraps a copy of an attribute statement back up.
#[verifier::external_body]
pub(crate) fn stmt_of_attr(a: &DsAttribute) -> DsStmt {
    DsStmt::Attribute(a.clone())
}

/// Relies on the dot-structures Stmt enum and the derived Clone of
/// GraphAttributes: wraps a copy of an attribute block back up.
#[verifier::external_body]
pub(crate) fn stmt_of_gattrs(g: &DsGraphAttributes) -> DsStmt {
    DsStmt::GAttribute(g.clone())
}

/// Relies on the dot-structures Stmt enum and the derived Clone of Node:
/// wraps a copy of the node's original statement back up.
#[verifier::external_body]
pub(crate) fn stmt_of_node(n: &Node) -> DsStmt {
    DsStmt::Node(n.raw.clone())
}

/// Relies on the dot-structures Stmt enum and the derived Clone of Edge:
/// wraps a copy of the edge's original statement back up.
#[verifier::external_body]
pub(crate) fn stmt_of_edge(e: &Edge) -> DsStmt {
    DsStmt::Edge(e.raw.clone())
}

/// Relies on the dot-structures Graph variants: rebuilds a graph of the
/// given kind and strictness under a plain identifier.
#[verifier::external_body]
pub(crate) fn assemble_dot(directed: bool, strict: bool, name: &str, stmts: Vec<DsStmt>) -> DsGraph {
    let id = DsId::Plain(name.to_owned());
    if directed {
        DsGraph::DiGraph { id, strict, stmts }
    } else {
        DsGraph::Graph { id, strict, stmts }
    }
}

/// Relies on graphviz_rust's DotPrinter impl for Graph: renders the graph
/// as dot text.
#[verifier::external_body]
pub(crate) fn print_dot(g: &DsGraph) -> String {
    g.print(&mut PrinterContext::default())
}

/// Relies on std's Display for usize: the decimal digits of the index.
#[verifier::external_body]
pub(crate) fn index_name(i: usize) -> String {
    i.to_string()
}

} // verus!
