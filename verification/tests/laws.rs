use analyzer_core::relations::{expand_symbol, index_prisma_models, index_symbols, ContractGraph};
use analyzer_core::text::chars_of;
use analyzer_core::{
    analyze_prisma, build_report, ContractEdgeKind, ContractNodeKind, FactCollector, FileAnalysis,
};

/// A file whose routes are declared by `app.get('/x')`-style calls.
fn routes_file(path: &str, source: &str, routes: &[(&str, &str)]) -> FileAnalysis {
    let mut collector = FactCollector::new(path, source);
    for (index, (method, route_path)) in routes.iter().enumerate() {
        let start = index as u32;
        collector.enter_route(&chars_of(method), &chars_of(route_path), start, start + 1, None, None);
        collector.exit_route();
    }
    collector.finish(path, String::new(), Vec::new())
}

#[test]
fn contracts_are_ordered_by_path_method_and_file() {
    let b = routes_file("src/b.ts", "app.get('/b'); app.post('/a')", &[("get", "/b"), ("post", "/a")]);
    let a = routes_file("src/a.ts", "app.get('/b')", &[("get", "/b")]);
    let c = routes_file("src/c.ts", "app.delete('/b')", &[("delete", "/b")]);
    let report = build_report("/p".to_owned(), 0, vec![b, c, a]);
    let order: Vec<(&str, &str, &str)> = report
        .contracts
        .iter()
        .map(|c| (c.path.as_str(), c.method.as_str(), c.file_path.as_str()))
        .collect();
    assert_eq!(
        order,
        vec![
            ("/a", "POST", "src/b.ts"),
            ("/b", "DELETE", "src/c.ts"),
            ("/b", "GET", "src/a.ts"),
            ("/b", "GET", "src/b.ts"),
        ]
    );
    for contract in &report.contracts {
        assert_eq!(contract.nodes.len(), 1);
        assert!(contract.edges.is_empty());
    }
}

#[test]
fn report_is_independent_of_file_order() {
    let files = || {
        vec![
            analyze_prisma("prisma/schema.prisma", "model User {\n}\n", String::new()),
            routes_file("src/b.ts", "app.get('/b')", &[("get", "/b")]),
            routes_file("src/a.ts", "app.post('/a')", &[("post", "/a")]),
        ]
    };
    let forward = build_report("/p".to_owned(), 7, files());
    let mut reversed_files = files();
    reversed_files.reverse();
    let reversed = build_report("/p".to_owned(), 7, reversed_files);

    let paths = |r: &analyzer_core::AnalysisReport| r.files.iter().map(|f| f.path.clone()).collect::<Vec<_>>();
    assert_eq!(paths(&forward), vec!["prisma/schema.prisma", "src/a.ts", "src/b.ts"]);
    assert_eq!(paths(&forward), paths(&reversed));
    assert_eq!(forward.summary.total_files, reversed.summary.total_files);
    assert_eq!(forward.summary.routes, 2);
    assert_eq!(forward.summary.routes, reversed.summary.routes);
    assert_eq!(forward.summary.prisma_models, reversed.summary.prisma_models);
    assert_eq!(forward.summary.total_bytes, reversed.summary.total_bytes);
    let ids = |r: &analyzer_core::AnalysisReport| r.contracts.iter().map(|c| c.id.clone()).collect::<Vec<_>>();
    assert_eq!(ids(&forward), ids(&reversed));
}

#[test]
fn route_calls_are_reported_in_source_order_once() {
    let source = "app.get('/x', () => { b(); a(); })";
    let mut c = FactCollector::new("x.ts", source);
    c.enter_route(&chars_of("get"), &chars_of("/x"), 4, 34, None, None);
    c.add_call(27, 28, 27, 30);
    c.add_call(22, 23, 22, 25);
    c.add_call(27, 28, 27, 30);
    c.exit_route();
    let file = c.finish("x.ts", String::new(), Vec::new());
    let calls: Vec<(&str, u32)> = file.routes[0].calls.iter().map(|c| (c.callee.as_str(), c.span.start)).collect();
    assert_eq!(calls, vec![("b", 22), ("a", 27)]);
    assert_eq!(file.calls.len(), 3);
}

#[test]
fn route_names_are_sorted_and_unique() {
    let mut c = FactCollector::new("x.ts", "app.use(z).use(a).group('/', g)");
    c.enter_group("", 0, 23);
    c.enter_route(&chars_of("get"), &chars_of("/"), 0, 1, None, None);
    for name in ["Zod", "Body", "Alpha", "Body"] {
        c.identifier_reference(name);
    }
    c.exit_route();
    let file = c.finish("x.ts", String::new(), Vec::new());
    assert_eq!(file.routes[0].middleware, vec!["a".to_owned(), "z".to_owned()]);
    assert_eq!(
        file.routes[0].schema_refs,
        vec!["Alpha".to_owned(), "Body".to_owned(), "Zod".to_owned()]
    );
}

#[test]
fn adding_a_node_or_edge_twice_adds_it_once() {
    let mut graph = ContractGraph::new(chars_of("c"));
    let key = chars_of("endpoint");
    let first = graph.add_node(&key, chars_of("GET /"), chars_of("d"), ContractNodeKind::Endpoint, Some("a.ts".to_owned()), None);
    let again = graph.add_node(&key, chars_of("other"), chars_of("x"), ContractNodeKind::Helper, None, None);
    assert_eq!(first, again);
    assert_eq!(first, chars_of("c:node:0"));
    let other = graph.add_node(&chars_of("helper"), chars_of("h"), chars_of("d"), ContractNodeKind::Helper, Some("a.ts".to_owned()), None);
    assert_eq!(other, chars_of("c:node:1"));
    assert_eq!(graph.nodes.len(), 2);
    assert_eq!(graph.nodes[0].label, "GET /");

    graph.add_edge(&first, &other, ContractEdgeKind::Invokes, "invokes");
    graph.add_edge(&first, &other, ContractEdgeKind::Invokes, "again");
    graph.add_edge(&first, &first, ContractEdgeKind::Invokes, "loop");
    graph.add_edge(&first, &other, ContractEdgeKind::Guards, "guards");
    assert_eq!(graph.edges.len(), 2);
    assert_eq!(graph.edges[0].id, "c:edge:0");
    assert_eq!(graph.edges[0].label, "invokes");
    assert_eq!(graph.edges[1].kind, ContractEdgeKind::Guards);
}

#[test]
fn expansion_stops_past_the_depth_limit() {
    let files: Vec<FileAnalysis> = Vec::new();
    let symbols = index_symbols(&files);
    let models = index_prisma_models(&files);
    let mut graph = ContractGraph::new(chars_of("contract"));
    let mut expanded: Vec<Vec<char>> = Vec::new();
    for depth in [3usize, 4, 100, usize::MAX] {
        expand_symbol(&chars_of("handler"), &chars_of("root"), &files, &symbols, &models, &mut graph, &mut expanded, depth);
        assert!(graph.nodes.is_empty() && graph.edges.is_empty());
        assert!(expanded.is_empty());
    }
    expand_symbol(&chars_of("handler"), &chars_of("root"), &files, &symbols, &models, &mut graph, &mut expanded, 2);
    assert_eq!(expanded, vec![chars_of("handler")]);
}
