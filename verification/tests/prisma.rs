use analyzer_core::{analyze_prisma, parse_declaration, SymbolKind};

#[test]
fn parses_model_and_enum_declarations() {
    let model = parse_declaration("model User {");
    let enumeration = parse_declaration("enum Status {");

    assert!(matches!(model, Some((SymbolKind::PrismaModel, ref name)) if name == "User"));
    assert!(matches!(
        enumeration,
        Some((SymbolKind::PrismaEnum, ref name)) if name == "Status"
    ));
}

#[test]
fn declaration_names_end_at_white_space_or_brace() {
    assert!(matches!(parse_declaration("model Order{"), Some((SymbolKind::PrismaModel, ref n)) if n == "Order"));
    assert!(matches!(parse_declaration("enum Role\t{"), Some((SymbolKind::PrismaEnum, ref n)) if n == "Role"));
    assert!(parse_declaration("model {").is_none());
    assert!(parse_declaration("model").is_none());
    assert!(parse_declaration("type Address {").is_none());
    assert!(parse_declaration("  model User {").is_none());
}

#[test]
fn analyzes_a_schema_with_spans_and_counts() {
    let source = "model User {\n  id Int\n}\n\n  enum Status {\n  A\n}\n";
    let file = analyze_prisma("prisma/schema.prisma", source, "hash".to_owned());

    assert_eq!(file.id, "file:prisma/schema.prisma");
    assert_eq!(file.path, "prisma/schema.prisma");
    assert_eq!(file.language, "Prisma Schema");
    assert_eq!(file.content_hash, "hash");
    assert_eq!(file.byte_length, source.len() as u64);
    assert_eq!(file.symbols.len(), 2);

    let user = &file.symbols[0];
    assert_eq!(user.id, "symbol:prisma/schema.prisma:prisma-model:User");
    assert_eq!(user.name, "User");
    assert_eq!(user.kind, SymbolKind::PrismaModel);
    assert_eq!(user.span.start, 0);
    assert_eq!(user.span.end, 12);
    assert_eq!(user.span.start_line, Some(1));
    assert_eq!(user.span.end_line, Some(1));

    let status = &file.symbols[1];
    assert_eq!(status.id, "symbol:prisma/schema.prisma:prisma-enum:Status");
    assert_eq!(status.kind, SymbolKind::PrismaEnum);
    assert_eq!(status.span.start, 27);
    assert_eq!(status.span.end, 40);
    assert_eq!(status.span.start_line, Some(5));

    assert_eq!(file.metrics.prisma_models, 1);
    assert_eq!(file.metrics.prisma_enums, 1);
    assert_eq!(
        file.metrics.prisma_models + file.metrics.prisma_enums,
        file.symbols.len()
    );
    assert!(file.imports.is_empty() && file.calls.is_empty() && file.routes.is_empty());
}

#[test]
fn schema_without_declarations_has_no_symbols() {
    let file = analyze_prisma("schema.prisma", "datasource db {\n  provider = \"postgresql\"\n}", String::new());
    assert!(file.symbols.is_empty());
    assert_eq!(file.metrics.prisma_models, 0);
    assert_eq!(file.metrics.prisma_enums, 0);
}

#[test]
fn spans_count_both_bytes_of_crlf_line_endings() {
    let file = analyze_prisma("schema.prisma", "\r\nmodel A {", String::new());
    assert_eq!(file.symbols.len(), 1);
    assert_eq!(file.symbols[0].span.start, 2);
    assert_eq!(file.symbols[0].span.end, 11);
    assert_eq!(file.symbols[0].span.start_line, Some(2));

    let source = "model User {\r\n  id Int\r\n}\r\n\r\n  enum Status {\r\n  A\r\n}\r\n";
    let file = analyze_prisma("schema.prisma", source, String::new());
    assert_eq!(file.symbols.len(), 2);
    let user = &file.symbols[0];
    assert_eq!((user.span.start, user.span.end), (0, 12));
    assert_eq!(&source[user.span.start as usize..user.span.end as usize], "model User {");
    let status = &file.symbols[1];
    assert_eq!((status.span.start, status.span.end), (31, 44));
    assert_eq!(status.span.start_line, Some(5));
    assert_eq!(
        &source[status.span.start as usize..status.span.end as usize],
        "enum Status {"
    );
}
