use analyzer_core::oxc_facts::{
    classify_call, compact_source, extract_chain_middleware, extract_summary, label_for_extension,
    looks_like_schema, source_type_label,
};
use analyzer_core::text::{chars_of, string_of};
use analyzer_core::{
    build_report, CallAction, ContractEdgeKind, ContractNodeKind, FactCollector, FileAnalysis,
    SymbolKind,
};

const SOURCE: &str = r#"import { Elysia, t } from "elysia";
import { prisma } from "./db";

export const EventQuery = t.Object({ organizationId: t.String() });

export class EventService {
  static list(organizationId) {
    return prisma.event.findMany({ where: { organizationId } });
  }
}

function audit() {
  return prisma.auditLog.create({ data: { action } });
}

export const app = new Elysia().use(auth).group("/api", (api) => api.get("/events", ({ query }) => EventService.list(query.organizationId), { query: EventQuery, detail: { summary: "List events" } }));
"#;

/// The byte span of the first occurrence of `text` at or after `from`.
fn at(text: &str, from: usize) -> (u32, u32) {
    let start = from + SOURCE[from..].find(text).expect("text is in the source");
    (start as u32, (start + text.len()) as u32)
}

fn span(text: &str) -> (u32, u32) {
    at(text, 0)
}

fn text(v: Vec<char>) -> String {
    string_of(&v)
}

/// The collector's events in the order a walk of the syntax tree of
/// `SOURCE` raises them.
fn walk() -> FactCollector {
    let mut c = FactCollector::new("src/app.ts", SOURCE);
    c.import_declaration("elysia");
    c.import_declaration("./db");

    let (init_start, init_end) = span("t.Object({ organizationId: t.String() })");
    let (decl_start, decl_end) = span("EventQuery = t.Object({ organizationId: t.String() })");
    c.variable_declarator("EventQuery", init_start, init_end, decl_start, decl_end);
    let (s, e) = span("t.Object");
    c.add_call(s, e, init_start, init_end);
    let (cs, ce) = span("t.String()");
    c.add_call(cs, cs + 8, cs, ce);

    let class_start = span("class EventService").0;
    let class_end = span("}\n}\n").1;
    let named = c.enter_class(Some("EventService"), class_start, class_end);
    let method_start = span("static list").0;
    let pushed = c.enter_method(Some("list"), method_start, class_end - 2);
    let anonymous = c.enter_function(None, span("(organizationId) {").0, class_end - 2);
    let (q_start, q_end) = span("prisma.event.findMany({ where: { organizationId } })");
    c.add_call(q_start, q_start + 21, q_start, q_end);
    c.identifier_reference("prisma");
    c.identifier_reference("organizationId");
    c.exit_function(anonymous);
    c.exit_method(pushed);
    c.exit_class(named);

    let (f_start, _) = span("function audit");
    let f_end = span("}\n\nexport const app").0 + 1;
    let helper = c.enter_function(Some("audit"), f_start, f_end);
    let (a_start, a_end) = span("prisma.auditLog.create({ data: { action } })");
    c.add_call(a_start, a_start + 22, a_start, a_end);
    c.exit_function(helper);

    let (app_init_start, app_init_end) = span("new Elysia()");
    let app_end = SOURCE.rfind(')').unwrap() as u32 + 1;
    c.variable_declarator("app", app_init_start, app_end, span("app =").0, app_end);

    let group_callee = span("new Elysia().use(auth).group");
    assert_eq!(classify_call(Some("group"), true), CallAction::Group);
    let added = c.enter_group("/api", group_callee.0, group_callee.1);
    assert_eq!(added, 1);
    assert_eq!(classify_call(Some("use"), false), CallAction::Use);
    let used = c.enter_use(Some(span("auth")));
    c.identifier_reference("Elysia");
    c.identifier_reference("auth");
    c.exit_use(used);
    let _ = app_init_end;

    let route_call = span("api.get(");
    let route_end = app_end - 1;
    let handler = span("({ query }) => EventService.list(query.organizationId)");
    let options = span("{ query: EventQuery, detail: { summary: \"List events\" } }");
    assert_eq!(classify_call(Some("get"), true), CallAction::Route);
    c.enter_route(
        &chars_of("get"),
        &chars_of("/events"),
        route_call.0 + 4,
        route_end,
        Some(handler),
        Some(options),
    );
    c.identifier_reference("api");
    let (l_start, l_end) = span("EventService.list(query.organizationId)");
    assert_eq!(classify_call(Some("list"), false), CallAction::Plain);
    c.add_call(l_start, l_start + 17, l_start, l_end);
    c.identifier_reference("EventService");
    c.identifier_reference("query");
    c.identifier_reference("EventQuery");
    c.identifier_reference("EventService");
    c.exit_route();
    c.exit_group(added);
    c
}

fn analysis() -> FileAnalysis {
    walk().finish("/project/src/app.ts", "h".to_owned(), Vec::new())
}

#[test]
fn collects_imports_symbols_and_counts() {
    let file = analysis();
    assert_eq!(file.id, "file:src/app.ts");
    assert_eq!(file.path, "src/app.ts");
    assert_eq!(file.language, "TypeScript");
    assert_eq!(file.byte_length, SOURCE.len() as u64);
    assert_eq!(file.imports, vec!["elysia".to_owned(), "./db".to_owned()]);

    let symbols: Vec<(&str, SymbolKind)> =
        file.symbols.iter().map(|s| (s.name.as_str(), s.kind)).collect();
    assert_eq!(
        symbols,
        vec![
            ("EventQuery", SymbolKind::Schema),
            ("EventService", SymbolKind::Class),
            ("EventService.list", SymbolKind::Method),
            ("audit", SymbolKind::Function),
        ]
    );
    let class_start = span("class EventService").0;
    assert_eq!(file.symbols[1].id, format!("symbol:src/app.ts:class:EventService:{class_start}"));
    assert_eq!(file.symbols[1].span.start_line, Some(6));

    assert_eq!(file.metrics.imports, 2);
    assert_eq!(file.metrics.functions, 2);
    assert_eq!(file.metrics.classes, 1);
    assert_eq!(file.metrics.calls, 5);
    assert_eq!(file.metrics.routes, 1);
}

#[test]
fn records_calls_with_their_owners() {
    let file = analysis();
    let calls: Vec<(&str, Option<&str>)> =
        file.calls.iter().map(|c| (c.callee.as_str(), c.owner.as_deref())).collect();
    assert_eq!(
        calls,
        vec![
            ("t.Object", None),
            ("t.String", None),
            ("prisma.event.findMany", Some("EventService.list")),
            ("prisma.auditLog.create", Some("audit")),
            ("EventService.list", None),
        ]
    );
    let find_many = &file.calls[2];
    let start = span("prisma.event.findMany").0;
    assert_eq!(find_many.id, format!("call:src/app.ts:{start}:prisma.event.findMany"));
    assert_eq!(find_many.expression, "prisma.event.findMany({ where: { organizationId } })");
    assert_eq!(find_many.span.start_line, Some(8));
    assert_eq!(find_many.span.end_line, Some(8));
}

#[test]
fn records_the_route_in_its_group() {
    let file = analysis();
    let route = &file.routes[0];
    let start = span("api.get(").0 + 4;
    assert_eq!(route.id, format!("contract:src/app.ts:get:/api/events:{start}"));
    assert_eq!(route.method, "GET");
    assert_eq!(route.path, "/api/events");
    assert_eq!(route.summary.as_deref(), Some("List events"));
    assert_eq!(route.middleware, vec!["auth".to_owned()]);
    assert_eq!(route.schema_refs, vec!["EventQuery".to_owned(), "EventService".to_owned()]);
    assert_eq!(route.calls.len(), 1);
    assert_eq!(route.calls[0].callee, "EventService.list");
    assert_eq!(route.span.start_line, Some(16));
    assert!(route.handler_span.is_some());
}

#[test]
fn builds_the_route_contract() {
    let report = build_report("/project".to_owned(), 1, vec![analysis()]);
    assert_eq!(report.summary.total_files, 1);
    assert_eq!(report.summary.imports, 2);
    assert_eq!(report.summary.functions, 2);
    assert_eq!(report.summary.classes, 1);
    assert_eq!(report.summary.routes, 1);
    assert_eq!(report.contracts.len(), 1);

    let contract = &report.contracts[0];
    assert_eq!(contract.method, "GET");
    assert_eq!(contract.path, "/api/events");
    assert_eq!(contract.file_path, "src/app.ts");
    let nodes: Vec<(&str, ContractNodeKind)> =
        contract.nodes.iter().map(|n| (n.label.as_str(), n.kind)).collect();
    assert_eq!(
        nodes,
        vec![
            ("GET /api/events", ContractNodeKind::Endpoint),
            ("auth", ContractNodeKind::Middleware),
            ("EventQuery", ContractNodeKind::Schema),
            ("EventService.list", ContractNodeKind::Service),
            ("event.findMany", ContractNodeKind::Database),
        ]
    );
    assert_eq!(contract.nodes[0].detail, "List events");
    assert_eq!(contract.nodes[2].detail, "Query contract");
    assert_eq!(contract.nodes[3].detail, "Service method");
    assert_eq!(contract.nodes[4].detail, "Reads the Event model via Prisma `findMany`");
    for (index, node) in contract.nodes.iter().enumerate() {
        assert_eq!(node.order, index);
        assert_eq!(node.id, format!("{}:node:{index}", contract.id));
        assert!(node.file_path.is_some());
    }

    let edges: Vec<(usize, usize, ContractEdgeKind, &str)> = contract
        .edges
        .iter()
        .map(|e| {
            let position = |id: &str| contract.nodes.iter().position(|n| n.id == id).expect("edge ends are nodes");
            (position(&e.source), position(&e.target), e.kind, e.label.as_str())
        })
        .collect();
    assert_eq!(
        edges,
        vec![
            (0, 1, ContractEdgeKind::Guards, "guards"),
            (2, 0, ContractEdgeKind::UsesSchema, "validates"),
            (1, 3, ContractEdgeKind::Invokes, "invokes"),
            (3, 4, ContractEdgeKind::Reads, "reads"),
        ]
    );

    let access = contract.nodes[4].data_access.as_ref().expect("database nodes carry their access");
    assert_eq!(access.model, "event");
    assert_eq!(access.operation, "findMany");
    assert_eq!(access.shape_fingerprint, "event:findmany");
    assert!(access.fingerprint.starts_with("prisma:"));
    assert!(access.expression.starts_with("prisma.event.findMany"));
    let sql = access.interpreted_sql.as_ref().expect("findMany is interpreted");
    assert_eq!(sql.statement, "SELECT *\nFROM Event\nWHERE organizationId = ?");
}

#[test]
fn leaving_scopes_restores_the_walk() {
    let mut c = FactCollector::new("a.ts", "x.use(auth).group('/v1', f)");
    let added = c.enter_group("/v1", 0, 17);
    assert_eq!(added, 1);
    assert_eq!(c.middleware, vec![chars_of("auth")]);
    let used = c.enter_use(Some((6, 10)));
    assert!(used);
    assert_eq!(c.middleware.len(), 2);
    c.exit_use(used);
    c.exit_group(added);
    assert!(c.middleware.is_empty());
    assert!(c.path_prefixes.is_empty());
    assert!(!c.enter_use(Some((0, 0))));
    assert!(!c.enter_use(None));
    assert!(c.middleware.is_empty());
}

#[test]
fn lines_are_numbered_from_one() {
    let c = FactCollector::new("a.ts", "a\nbc\n\nd");
    assert_eq!(c.line_for_offset(0), 1);
    assert_eq!(c.line_for_offset(1), 1);
    assert_eq!(c.line_for_offset(2), 2);
    assert_eq!(c.line_for_offset(5), 3);
    assert_eq!(c.line_for_offset(6), 4);
    assert_eq!(c.line_for_offset(100), 4);
    let span = c.source_span(2, 6);
    assert_eq!((span.start_line, span.end_line), (Some(2), Some(3)));
    let empty = c.source_span(0, 0);
    assert_eq!((empty.start_line, empty.end_line), (Some(1), Some(1)));
}

#[test]
fn slices_only_at_character_boundaries() {
    let c = FactCollector::new("a.ts", "é = t.Object({})");
    assert_eq!(text(c.source_slice(0, 2)), "é");
    assert!(c.source_slice(1, 2).is_empty());
    assert!(c.source_slice(3, 2).is_empty());
    assert!(c.source_slice(0, 99).is_empty());
    assert_eq!(text(c.source_slice(5, 17)), "t.Object({})");
}

#[test]
fn route_paths_join_group_prefixes() {
    let mut c = FactCollector::new("a.ts", "");
    assert_eq!(text(c.current_path(&chars_of(""))), "/");
    assert_eq!(text(c.current_path(&chars_of("users"))), "/users");
    c.enter_group("/api", 0, 0);
    c.enter_group("v1", 0, 0);
    assert_eq!(text(c.current_path(&chars_of("/users"))), "/apiv1/users");
    c.exit_group(0);
    assert_eq!(text(c.current_path(&chars_of("/users"))), "/api/users");
}

#[test]
fn calls_with_blank_callees_are_ignored() {
    let mut c = FactCollector::new("a.ts", "  ()");
    c.add_call(0, 2, 0, 4);
    assert!(c.calls.is_empty());
}

#[test]
fn reads_excerpts() {
    assert_eq!(text(compact_source(&chars_of(" a . b ( c )\n"))), "a.b(c)");
    assert!(looks_like_schema(&chars_of("  t.String()")));
    assert!(looks_like_schema(&chars_of("validate(t.Object({}))")));
    assert!(looks_like_schema(&chars_of("Type.Union(t.Array(x))")));
    assert!(!looks_like_schema(&chars_of("z.object({})")));
    let chain = extract_chain_middleware(&chars_of("app.use( auth ).use(rateLimit).use().use(log"));
    let names: Vec<String> = chain.into_iter().map(text).collect();
    assert_eq!(names, vec!["auth".to_owned(), "rateLimit".to_owned()]);
    assert_eq!(
        extract_summary(&chars_of("{ detail: { summary: ' List  events ' } }")).map(text),
        Some("List  events".to_owned())
    );
    assert_eq!(extract_summary(&chars_of("{ summary: `x` }")).map(text), Some("x".to_owned()));
    assert_eq!(extract_summary(&chars_of("{ summary: name }")), None);
    assert_eq!(extract_summary(&chars_of("{ summary: 'open }")), None);
    assert_eq!(extract_summary(&chars_of("{ title: 'x' }")), None);
}

#[test]
fn labels_languages_by_extension() {
    assert_eq!(source_type_label("src/app.ts"), "TypeScript");
    assert_eq!(source_type_label("src/app.mts"), "TypeScript");
    assert_eq!(source_type_label("src/view.tsx"), "TypeScript JSX");
    assert_eq!(source_type_label("src/view.jsx"), "JavaScript JSX");
    assert_eq!(source_type_label("src/app.cjs"), "JavaScript");
    assert_eq!(source_type_label("src/app"), "ECMAScript");
    assert_eq!(label_for_extension(Some("vue")), "ECMAScript");
    assert_eq!(label_for_extension(None), "ECMAScript");
}

#[test]
fn classifies_calls() {
    assert_eq!(classify_call(None, true), CallAction::Plain);
    assert_eq!(classify_call(Some("group"), false), CallAction::Group);
    assert_eq!(classify_call(Some("use"), true), CallAction::Use);
    for method in ["get", "post", "put", "patch", "delete"] {
        assert_eq!(classify_call(Some(method), true), CallAction::Route);
        assert_eq!(classify_call(Some(method), false), CallAction::Plain);
    }
    assert_eq!(classify_call(Some("options"), true), CallAction::Plain);
}

#[test]
fn only_capitalized_identifiers_inside_routes_are_schema_names() {
    let mut c = FactCollector::new("a.ts", "app.get('/', h)");
    c.identifier_reference("Outside");
    c.enter_route(&chars_of("get"), &chars_of("/"), 4, 15, None, None);
    c.identifier_reference("body");
    c.identifier_reference("Body");
    c.identifier_reference("Éclair");
    c.identifier_reference("_Private");
    c.identifier_reference("Body");
    c.exit_route();
    let file = c.finish("a.ts", String::new(), Vec::new());
    assert_eq!(file.routes[0].schema_refs, vec!["Body".to_owned(), "Éclair".to_owned()]);
    assert_eq!(file.routes[0].path, "/");
    assert_eq!(file.routes[0].summary, None);
    assert_eq!(file.routes[0].handler_span, None);
}

#[test]
fn nested_scopes_are_closed_again() {
    let source = "app.group('/api', (api) => api.use(auth).get('/x', () => f(g())))";
    let mut c = FactCollector::new("src/app.ts", source);
    let before = (
        c.path_prefixes.clone(),
        c.middleware.clone(),
        c.route_stack.clone(),
        c.owner_stack.clone(),
        c.class_stack.clone(),
    );
    let calls_before = c.calls.len();
    let group = c.enter_group("/api", 0, 9);
    let outer = c.enter_function(Some("handler"), 0, 10);
    let used = c.enter_use(Some((35, 39)));
    c.enter_route(&chars_of("get"), &chars_of("/x"), 41, 66, None, None);
    let class = c.enter_class(Some("Inner"), 0, 5);
    c.add_call(57, 58, 57, 63);
    c.exit_class(class);
    c.exit_route();
    c.exit_use(used);
    c.exit_function(outer);
    c.exit_group(group);
    let after = (
        c.path_prefixes.clone(),
        c.middleware.clone(),
        c.route_stack.clone(),
        c.owner_stack.clone(),
        c.class_stack.clone(),
    );
    assert_eq!(after, before);
    assert_eq!(c.calls.len(), calls_before + 1);
    assert_eq!(c.routes.len(), 1);
    assert_eq!(c.routes[0].path, "/api/x");
}
