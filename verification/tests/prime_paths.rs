use graphviz_rust::dot_structures as ds;
use graphviz_rust::printer::{DotPrinter, PrinterContext};

use prime_paths::ident::{IdKind, Ident};
use prime_paths::model::{deconstruct_graph, Edge, GraphError, Node, RawStmt};
use prime_paths::enumerate::terminal_walks;
use prime_paths::path::Path;
use prime_paths::pipeline::{find_prime_paths, prime_path_dots, prime_paths};

fn ident(text: &str) -> Ident {
    Ident { kind: IdKind::Plain, text: text.to_string() }
}

fn ds_node_id(text: &str) -> ds::NodeId {
    ds::NodeId(ds::Id::Plain(text.to_string()), None)
}

fn ds_node(text: &str) -> ds::Node {
    ds::Node { id: ds_node_id(text), attributes: vec![] }
}

fn ds_edge(from: &str, to: &str) -> ds::Edge {
    ds::Edge {
        ty: ds::EdgeTy::Pair(ds::Vertex::N(ds_node_id(from)), ds::Vertex::N(ds_node_id(to))),
        attributes: vec![],
    }
}

fn node_stmt(text: &str) -> RawStmt {
    RawStmt::NodeDecl(Node { id: ident(text), raw: ds_node(text) })
}

fn edge_stmt(from: &str, to: &str) -> RawStmt {
    RawStmt::EdgeDecl(Edge { from: ident(from), to: ident(to), raw: ds_edge(from, to) })
}

fn names(p: &Path) -> Vec<String> {
    p.nodes.iter().map(|n| n.id.text.clone()).collect()
}

fn primes_of(stmts: Vec<RawStmt>) -> Vec<Path> {
    let graph = deconstruct_graph(true, false, stmts).expect("graph must build");
    prime_paths(&graph)
}

#[test]
fn isolated_node() {
    let primes = primes_of(vec![node_stmt("A")]);
    assert_eq!(primes.len(), 1);
    assert_eq!(names(&primes[0]), vec!["A".to_string()]);
    assert_eq!(primes[0].edges.len(), 0);
}

#[test]
fn self_loop() {
    let primes = primes_of(vec![node_stmt("A"), edge_stmt("A", "A")]);
    assert_eq!(primes.len(), 1);
    assert_eq!(names(&primes[0]), vec!["A".to_string(), "A".to_string()]);
    assert_eq!(primes[0].edges.len(), 1);
}

#[test]
fn three_cycle() {
    let primes = primes_of(vec![
        node_stmt("A"),
        node_stmt("B"),
        node_stmt("C"),
        edge_stmt("A", "B"),
        edge_stmt("B", "C"),
        edge_stmt("C", "A"),
    ]);
    let got: Vec<Vec<String>> = primes.iter().map(names).collect();
    assert_eq!(got.len(), 3);
    let rotations = vec![
        vec!["A".to_string(), "B".to_string(), "C".to_string(), "A".to_string()],
        vec!["B".to_string(), "C".to_string(), "A".to_string(), "B".to_string()],
        vec!["C".to_string(), "A".to_string(), "B".to_string(), "C".to_string()],
    ];
    for rotation in &rotations {
        assert!(got.contains(rotation));
    }
}

#[test]
fn linear_chain() {
    let primes = primes_of(vec![
        node_stmt("A"),
        node_stmt("B"),
        node_stmt("C"),
        edge_stmt("A", "B"),
        edge_stmt("B", "C"),
    ]);
    let got: Vec<Vec<String>> = primes.iter().map(names).collect();
    assert_eq!(got, vec![vec!["A".to_string(), "B".to_string(), "C".to_string()]]);
}

#[test]
fn branch_dead_ends() {
    let primes = primes_of(vec![
        node_stmt("A"),
        node_stmt("B"),
        node_stmt("C"),
        edge_stmt("A", "B"),
        edge_stmt("A", "C"),
    ]);
    let got: Vec<Vec<String>> = primes.iter().map(names).collect();
    assert_eq!(got.len(), 2);
    assert!(got.contains(&vec!["A".to_string(), "B".to_string()]));
    assert!(got.contains(&vec!["A".to_string(), "C".to_string()]));
}

#[test]
fn non_containment_on_cycle_output() {
    let primes = primes_of(vec![
        node_stmt("A"),
        node_stmt("B"),
        node_stmt("C"),
        edge_stmt("A", "B"),
        edge_stmt("B", "C"),
        edge_stmt("C", "A"),
    ]);
    for i in 0..primes.len() {
        for j in 0..primes.len() {
            if i != j {
                assert!(!primes[i].is_subpath_of(&primes[j]));
            }
        }
    }
}

#[test]
fn coverage_of_terminal_walks() {
    let stmts = vec![
        node_stmt("A"),
        node_stmt("B"),
        node_stmt("C"),
        edge_stmt("A", "B"),
        edge_stmt("B", "C"),
    ];
    let graph = deconstruct_graph(true, false, stmts).expect("graph must build");
    let walks = terminal_walks(&graph);
    let primes = prime_paths(&graph);
    assert!(!walks.is_empty());
    for walk in &walks {
        assert!(primes.iter().any(|p| walk.is_subpath_of(p)));
    }
}

#[test]
fn every_node_starts_a_walk() {
    let stmts = vec![node_stmt("A"), node_stmt("B"), edge_stmt("A", "B")];
    let graph = deconstruct_graph(true, false, stmts).expect("graph must build");
    let walks = terminal_walks(&graph);
    for start in ["A", "B"] {
        assert!(walks.iter().any(|w| w.nodes[0].id.text == start));
    }
}

#[test]
fn identifier_kinds_distinguish_nodes() {
    let html = Node {
        id: Ident { kind: IdKind::Html, text: "A".to_string() },
        raw: ds::Node { id: ds::NodeId(ds::Id::Html("A".to_string()), None), attributes: vec![] },
    };
    let stmts = vec![node_stmt("A"), RawStmt::NodeDecl(html)];
    let primes = primes_of(stmts);
    assert_eq!(primes.len(), 2);
}

#[test]
fn duplicate_node_declarations_collapse() {
    let primes = primes_of(vec![node_stmt("A"), node_stmt("A")]);
    assert_eq!(primes.len(), 1);
    assert_eq!(names(&primes[0]), vec!["A".to_string()]);
}

#[test]
fn parse_error_is_reported() {
    let r = prime_path_dots("this is not a graph");
    assert!(matches!(r, Err(GraphError::Parse(_))));
}

#[test]
fn nested_subgraph_is_rejected() {
    let r = prime_path_dots("digraph g { a; subgraph s { b; } }");
    assert!(matches!(r, Err(GraphError::UnsupportedSubgraph)));
}

#[test]
fn edge_chain_is_rejected() {
    let r = prime_path_dots("digraph g { a; b; c; a -> b -> c; }");
    assert!(matches!(r, Err(GraphError::UnsupportedChain)));
}

#[test]
fn undeclared_endpoint_is_rejected() {
    let r = prime_path_dots("digraph g { a; a -> b; }");
    assert!(matches!(r, Err(GraphError::UndeclaredEndpoint)));
}

#[test]
fn chain_via_model_is_rejected() {
    let r = deconstruct_graph(true, false, vec![node_stmt("A"), RawStmt::ChainDecl]);
    assert!(matches!(r, Err(GraphError::UnsupportedChain)));
}

#[test]
fn dots_in_discovery_order() {
    let text = "digraph g { a; b; c; a -> b; b -> c; c -> a; }";
    let dots = prime_path_dots(text).expect("must succeed");
    assert_eq!(dots.len(), 3);
    for dot in &dots {
        assert!(dot.contains("->"));
    }
}

#[test]
fn round_trip_restricted_graphs() {
    let text = "digraph g { a; b; c; a -> b; b -> c; }";
    let parsed = graphviz_rust::parse(text).expect("input must parse");
    let outputs = find_prime_paths(parsed).expect("must succeed");
    assert_eq!(outputs.len(), 1);
    for out in &outputs {
        let printed = out.print(&mut PrinterContext::default());
        let reparsed = graphviz_rust::parse(&printed).expect("output must parse");
        assert_eq!(&reparsed, out);
    }
}

#[test]
fn output_keeps_kind_strictness_and_attributes() {
    let text = "strict digraph g { rankdir=LR; a; b; a -> b; }";
    let parsed = graphviz_rust::parse(text).expect("input must parse");
    let outputs = find_prime_paths(parsed).expect("must succeed");
    assert_eq!(outputs.len(), 1);
    match &outputs[0] {
        ds::Graph::DiGraph { id, strict, stmts } => {
            assert!(*strict);
            assert_eq!(id, &ds::Id::Plain("0".to_string()));
            assert!(stmts.iter().any(|s| matches!(s, ds::Stmt::Attribute(_))));
        },
        ds::Graph::Graph { .. } => panic!("kind must be preserved"),
    }
}

#[test]
fn undirected_graph_keeps_kind() {
    let text = "graph g { a; b; }";
    let parsed = graphviz_rust::parse(text).expect("input must parse");
    let outputs = find_prime_paths(parsed).expect("must succeed");
    assert_eq!(outputs.len(), 2);
    for out in &outputs {
        assert!(matches!(out, ds::Graph::Graph { .. }));
    }
}

#[test]
fn undirected_edges_follow_declaration_only() {
    // Edges are traversed source-to-target only, also in undirected graphs.
    let primes = primes_of(vec![node_stmt("A"), node_stmt("B"), edge_stmt("A", "B")]);
    let got: Vec<Vec<String>> = primes.iter().map(names).collect();
    assert_eq!(got, vec![vec!["A".to_string(), "B".to_string()]]);
}

#[test]
fn subpath_test_is_contiguous() {
    let p = Path {
        nodes: vec![
            Node { id: ident("A"), raw: ds_node("A") },
            Node { id: ident("C"), raw: ds_node("C") },
        ],
        edges: vec![],
    };
    let q = Path {
        nodes: vec![
            Node { id: ident("A"), raw: ds_node("A") },
            Node { id: ident("B"), raw: ds_node("B") },
            Node { id: ident("C"), raw: ds_node("C") },
        ],
        edges: vec![],
    };
    // A,C appears in A,B,C only scattered, never as a contiguous block.
    assert!(!p.is_subpath_of(&q));
    let r = Path {
        nodes: vec![
            Node { id: ident("B"), raw: ds_node("B") },
            Node { id: ident("C"), raw: ds_node("C") },
        ],
        edges: vec![],
    };
    assert!(r.is_subpath_of(&q));
    assert!(q.is_subpath_of(&q));
    assert!(!q.is_subpath_of(&r));
}

#[test]
fn filter_is_order_dependent() {
    // The reverse-order, first-match-wins policy can keep a walk together
    // with a longer walk containing it, when the shorter walk was produced
    // later in the widening frontier. With nodes declared C, A, B and the
    // cycle A->B->C->A plus the extra edge C->B, the blocked walk A,B,C is
    // finalized after the closed cycle A,B,C,A and both survive.
    let primes = primes_of(vec![
        node_stmt("C"),
        node_stmt("A"),
        node_stmt("B"),
        edge_stmt("A", "B"),
        edge_stmt("B", "C"),
        edge_stmt("C", "A"),
        edge_stmt("C", "B"),
    ]);
    let got: Vec<Vec<String>> = primes.iter().map(names).collect();
    assert!(got.contains(&vec!["A".to_string(), "B".to_string(), "C".to_string()]));
    assert!(got.contains(&vec![
        "A".to_string(),
        "B".to_string(),
        "C".to_string(),
        "A".to_string(),
    ]));
}

#[test]
fn empty_graph_yields_nothing() {
    let dots = prime_path_dots("digraph g { }").expect("must succeed");
    assert_eq!(dots.len(), 0);
}

#[test]
fn output_id_avoids_source_id() {
    let text = "digraph 0 { a; }";
    let parsed = graphviz_rust::parse(text).expect("input must parse");
    let outputs = find_prime_paths(parsed).expect("must succeed");
    assert_eq!(outputs.len(), 1);
    match &outputs[0] {
        ds::Graph::DiGraph { id, .. } => {
            assert_ne!(id, &ds::Id::Plain("0".to_string()));
            assert_eq!(id, &ds::Id::Plain("0_".to_string()));
        },
        ds::Graph::Graph { .. } => panic!("kind must be preserved"),
    }
}
