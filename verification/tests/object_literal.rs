use analyzer_core::object_literal::{
    has_property, matching_delimiter, object_entries, property_object, property_value,
    split_once_top_level, split_top_level,
};
use analyzer_core::relations::{exact_query_fingerprint, normalize_query_expression, parse_prisma_call};
use analyzer_core::text::{chars_of, string_of, title_case};
use analyzer_core::ContractEdgeKind;

fn s(v: &Vec<char>) -> String {
    string_of(v)
}

#[test]
fn splits_only_at_the_top_level() {
    let source = chars_of("a: 1, b: { c: 2, d: [3, 4] }, e: f(5, 6), g: 'x, y', h: \"it\\\"s, ok\"");
    let pieces: Vec<String> = split_top_level(&source, ',').iter().map(s).collect();
    assert_eq!(
        pieces,
        vec!["a: 1", " b: { c: 2, d: [3, 4] }", " e: f(5, 6)", " g: 'x, y'", " h: \"it\\\"s, ok\""]
    );
    assert_eq!(pieces.join(","), s(&source));
    let one: Vec<String> = split_top_level(&chars_of(""), ',').iter().map(s).collect();
    assert_eq!(one, vec![String::new()]);
}

#[test]
fn has_one_more_piece_than_top_level_delimiters() {
    let pieces: Vec<String> = split_top_level(&chars_of("a, {b, c}, 'x,y'"), ',').iter().map(s).collect();
    assert_eq!(pieces, vec!["a", " {b, c}", " 'x,y'"]);
    let none: Vec<String> = split_top_level(&chars_of("[1, 2], (3, 4)"), ';').iter().map(s).collect();
    assert_eq!(none.len(), 1);
    let trailing: Vec<String> = split_top_level(&chars_of("a,"), ',').iter().map(s).collect();
    assert_eq!(trailing, vec!["a".to_owned(), String::new()]);
}

#[test]
fn splits_once_at_the_first_top_level_delimiter() {
    let (key, value) = split_once_top_level(&chars_of("where: { a: b }"), ':').expect("has a colon");
    assert_eq!((s(&key), s(&value)), ("where".to_owned(), " { a: b }".to_owned()));
    assert!(split_once_top_level(&chars_of("{ a: b }"), ':').is_none());
    assert!(split_once_top_level(&chars_of("'a:b'"), ':').is_none());
}

#[test]
fn matches_delimiters_outside_quotes() {
    let text = chars_of("f({ a: '}', b: { c: 1 } }) + 1");
    assert_eq!(matching_delimiter(&text, 2, '{', '}'), Some(24));
    assert_eq!(matching_delimiter(&text, 1, '(', ')'), Some(25));
    assert_eq!(matching_delimiter(&chars_of("{ a: { b }"), 0, '{', '}'), None);
    assert_eq!(matching_delimiter(&chars_of("{}"), 2, '{', '}'), None);
}

#[test]
fn reads_entries_and_properties() {
    let entries: Vec<(String, String)> = object_entries(&chars_of(" id: true, 'name': \"n\", code , ,deleted:false "))
        .iter()
        .map(|(k, v)| (s(k), s(v)))
        .collect();
    assert_eq!(
        entries,
        vec![
            ("id".to_owned(), "true".to_owned()),
            ("name".to_owned(), "\"n\"".to_owned()),
            ("code".to_owned(), String::new()),
            ("deleted".to_owned(), "false".to_owned()),
        ]
    );
    let call = chars_of("prisma.user.findMany({ where: { id }, take: 5, 'select': { id: true } })");
    assert_eq!(property_value(&call, &chars_of("take")).map(|v| s(&v)), Some("5".to_owned()));
    assert_eq!(property_object(&call, &chars_of("where")).map(|v| s(&v)), Some(" id ".to_owned()));
    assert_eq!(property_object(&call, &chars_of("select")).map(|v| s(&v)), Some(" id: true ".to_owned()));
    assert!(property_object(&call, &chars_of("take")).is_none());
    assert!(has_property(&call, &chars_of("take")));
    assert!(!has_property(&call, &chars_of("skip")));
    assert!(!has_property(&chars_of("prisma.user.findMany()"), &chars_of("take")));
}

#[test]
fn normalizes_query_text() {
    let a = chars_of("prisma.event.findMany({\n  where: { id, name: 'a b' },\n})");
    let b = chars_of("prisma.event.findMany({ where: { id, name: 'a b' } })");
    assert_eq!(s(&normalize_query_expression(&a)), "prisma.event.findMany({where:{id,name:'a b'}})");
    assert_eq!(s(&normalize_query_expression(&a)), s(&normalize_query_expression(&b)));
    assert_eq!(exact_query_fingerprint(&a), exact_query_fingerprint(&b));
    let fingerprint = s(&exact_query_fingerprint(&a));
    assert!(fingerprint.starts_with("prisma:"));
    assert_eq!(fingerprint.len(), "prisma:".len() + 64);
    assert_ne!(exact_query_fingerprint(&a), exact_query_fingerprint(&chars_of("prisma.event.findMany({ where: { id } })")));
}

#[test]
fn reads_prisma_calls() {
    let (model, operation, access) = parse_prisma_call("prisma.event.findMany").expect("a Prisma call");
    assert_eq!((s(&model), s(&operation), access), ("event".to_owned(), "findMany".to_owned(), ContractEdgeKind::Reads));
    let (_, _, write) = parse_prisma_call("prisma.user.update").expect("a Prisma call");
    assert_eq!(write, ContractEdgeKind::Writes);
    assert!(parse_prisma_call("EventService.list").is_none());
}

#[test]
fn title_cases_the_first_character() {
    assert_eq!(s(&title_case(&chars_of("discount"))), "Discount");
    assert_eq!(s(&title_case(&chars_of("ßeta"))), "SSeta");
    assert_eq!(s(&title_case(&chars_of(""))), "");
}
