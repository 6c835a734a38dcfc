//! The whole computation: flatten a parsed dot graph, enumerate its
//! terminal walks, filter them down to the prime paths, and rebuild one
//! restricted dot graph per prime path.

use vstd::prelude::*;

use crate::dot::{
    assemble_dot, classify_stmt, clone_dot_attr, clone_dot_gattrs, dot_parses, graph_parts,
    index_name, print_dot, stmt_of_attr, stmt_of_edge, stmt_of_gattrs, stmt_of_node,
};
use crate::enumerate::{is_terminal_walk, terminal_walks};
use crate::filter::{prime_filter, remove_subpaths};
use crate::path::path_views;
use crate::ident::{IdKind, Ident};
use crate::model::{deconstruct_graph, Graph, GraphError, RawStmt};
use crate::path::{is_subpath, Path};
use vstd::string::StringExecFns;

verus! {

/// The prime paths of a well-formed graph: exactly the maximal-path
/// filter applied to the complete enumeration of terminal walks, so the
/// result is a function of the graph value alone, fully determined by
/// node and edge declaration order. Each result is a terminal walk, no
/// later result lies inside an earlier one, and a graph with at least one
/// node yields at least one prime path.
pub fn prime_paths(graph: &Graph) -> (r: Vec<Path>)
    requires
        graph@.wf(),
    ensures
        path_views(r@) == prime_filter(crate::enumerate::enumeration(graph@)),
        forall|k: int| 0 <= k < r@.len() ==> is_terminal_walk(graph@, (#[trigger] r@[k])@),
        forall|k1: int, k2: int|
            #![trigger r@[k1], r@[k2]]
            0 <= k1 < k2 < r@.len() ==> !is_subpath(r@[k2]@.nodes, r@[k1]@.nodes),
        graph@.nodes.len() > 0 ==> r@.len() > 0,
{
    let walks = terminal_walks(graph);
    let ghost s = path_views(walks@);
    let r = remove_subpaths(walks);
    proof {
        crate::filter::lemma_keep_invariant(s, s.len());
        assert forall|k: int| 0 <= k < r@.len() implies is_terminal_walk(
            graph@,
            (#[trigger] r@[k])@,
        ) by {
            assert(r@[k]@ == prime_filter(s)[k]);
            assert(crate::filter::from_tail(s, s.len(), prime_filter(s)[k]));
            let j = choose|j: int|
                s.len() - s.len() <= j < s.len() && prime_filter(s)[k] == #[trigger] s[j];
            assert(s[j] == walks@[j]@);
        }
        assert forall|k1: int, k2: int|
            #![trigger r@[k1], r@[k2]]
            0 <= k1 < k2 < r@.len() implies !is_subpath(r@[k2]@.nodes, r@[k1]@.nodes) by {
            assert(r@[k1]@ == prime_filter(s)[k1]);
            assert(r@[k2]@ == prime_filter(s)[k2]);
        }
    }
    r
}

/// The restriction of the graph to one walk: same kind, strictness and
/// pass-through attributes, but exactly the walk's nodes and edges.
pub fn path_graph(model: &Graph, p: &Path) -> (r: Graph)
    ensures
        r@.directed == model@.directed,
        r@.strict == model@.strict,
        r@.nodes == p@.nodes,
        r@.edges == p@.edges,
        r.attributes@.len() == model.attributes@.len(),
        r.graph_attributes@.len() == model.graph_attributes@.len(),
{
    let mut attributes: Vec<graphviz_rust::dot_structures::Attribute> = Vec::new();
    let mut i: usize = 0;
    while i < model.attributes.len()
        invariant
            0 <= i <= model.attributes@.len(),
            attributes@.len() == i,
        decreases model.attributes@.len() - i,
    {
        attributes.push(clone_dot_attr(&model.attributes[i]));
        i = i + 1;
    }
    let mut graph_attributes: Vec<graphviz_rust::dot_structures::GraphAttributes> = Vec::new();
    let mut j: usize = 0;
    while j < model.graph_attributes.len()
        invariant
            0 <= j <= model.graph_attributes@.len(),
            graph_attributes@.len() == j,
        decreases model.graph_attributes@.len() - j,
    {
        graph_attributes.push(clone_dot_gattrs(&model.graph_attributes[j]));
        j = j + 1;
    }
    let restricted = p.clone();
    Graph {
        directed: model.directed,
        strict: model.strict,
        attributes,
        graph_attributes,
        nodes: restricted.nodes,
        edges: restricted.edges,
    }
}

/// Serializes the flattened graph back into a statement list under a
/// fresh plain identifier: attribute statements first, then attribute
/// blocks, then nodes, then edges, each in stored order.
pub fn reconstruct_graph(graph: &Graph, name: &str) -> graphviz_rust::dot_structures::Graph {
    let mut stmts: Vec<graphviz_rust::dot_structures::Stmt> = Vec::new();
    let mut i: usize = 0;
    while i < graph.attributes.len()
        decreases graph.attributes@.len() - i,
    {
        stmts.push(stmt_of_attr(&graph.attributes[i]));
        i = i + 1;
    }
    let mut j: usize = 0;
    while j < graph.graph_attributes.len()
        decreases graph.graph_attributes@.len() - j,
    {
        stmts.push(stmt_of_gattrs(&graph.graph_attributes[j]));
        j = j + 1;
    }
    let mut k: usize = 0;
    while k < graph.nodes.len()
        decreases graph.nodes@.len() - k,
    {
        stmts.push(stmt_of_node(&graph.nodes[k]));
        k = k + 1;
    }
    let mut m: usize = 0;
    while m < graph.edges.len()
        decreases graph.edges@.len() - m,
    {
        stmts.push(stmt_of_edge(&graph.edges[m]));
        m = m + 1;
    }
    assemble_dot(graph.directed, graph.strict, name, stmts)
}

/// A synthetic plain identifier for the output graph numbered `i`: the
/// decimal index, with an underscore appended when that would collide
/// with the source graph's own identifier. The result never equals the
/// source identifier.
fn output_name(source_id: &Ident, i: usize) -> (r: String)
    ensures
        !(source_id@.kind == IdKind::Plain && r@ == source_id@.text),
{
    let base = index_name(i);
    if source_id.kind == IdKind::Plain && base == source_id.text {
        let mut alt = base;
        alt.append("_");
        proof {
            reveal_strlit("_");
            assert(alt@.len() == source_id@.text.len() + 1);
        }
        alt
    } else {
        base
    }
}

/// The prime paths of a parsed dot graph, one restricted output graph per
/// path, numbered in discovery order. A nested subgraph, a multi-hop edge
/// chain, or an edge endpoint without a node declaration rejects the
/// input; a parse error cannot arise here.
pub fn find_prime_paths(graph: graphviz_rust::dot_structures::Graph) -> (r: Result<
    Vec<graphviz_rust::dot_structures::Graph>,
    GraphError,
>)
    ensures
        !(r matches Err(GraphError::Parse(_))),
{
    let (directed, strict, source_id, ds_stmts) = graph_parts(graph);
    let mut ds_stmts = ds_stmts;
    let mut raw: Vec<RawStmt> = Vec::new();
    while ds_stmts.len() > 0
        decreases ds_stmts@.len(),
    {
        let s = ds_stmts.remove(0);
        raw.push(classify_stmt(s));
    }
    let model = match deconstruct_graph(directed, strict, raw) {
        Ok(model) => model,
        Err(e) => {
            return Err(e);
        },
    };
    let primes = prime_paths(&model);
    let mut out: Vec<graphviz_rust::dot_structures::Graph> = Vec::new();
    let mut i: usize = 0;
    while i < primes.len()
        decreases primes@.len() - i,
    {
        let restricted = path_graph(&model, &primes[i]);
        let name = output_name(&source_id, i);
        out.push(reconstruct_graph(&restricted, name.as_str()));
        i = i + 1;
    }
    Ok(out)
}

/// The whole run on dot text: parse, find the prime paths, and render
/// each restricted graph back to dot text, in discovery order. A parse
/// error is returned exactly when the text is not a well-formed dot
/// description; every other outcome means the text parsed.
pub fn prime_path_dots(text: &str) -> (r: Result<Vec<String>, GraphError>)
    ensures
        (r matches Err(GraphError::Parse(_))) <==> !dot_parses(text@),
{
    let parsed = match graphviz_rust::parse(text) {
        Ok(g) => g,
        Err(msg) => {
            return Err(GraphError::Parse(msg));
        },
    };
    let graphs = match find_prime_paths(parsed) {
        Ok(gs) => gs,
        Err(e) => {
            return Err(e);
        },
    };
    let mut out: Vec<String> = Vec::new();
    let mut i: usize = 0;
    while i < graphs.len()
        decreases graphs@.len() - i,
    {
        out.push(print_dot(&graphs[i]));
        i = i + 1;
    }
    Ok(out)
}

} // verus!
