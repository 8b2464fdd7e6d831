use analyzer_core::interpret_prisma_call;

#[test]
fn interprets_prisma_find_first_as_readable_sql() {
    let preview = interpret_prisma_call(
        "discount",
        "findFirst",
        "prisma.discount.findFirst({ select: { id: true, code: true, amount: true }, where: { code, deleted: false } })",
    )
    .expect("supported Prisma call should be interpreted");

    assert_eq!(
        preview.statement,
        "SELECT id, code, amount\nFROM Discount\nWHERE code = ? AND deleted = false\nLIMIT 1"
    );
    assert!(preview.limitations.is_empty());
}

#[test]
fn calls_out_dynamic_default_projection() {
    let preview = interpret_prisma_call(
        "event",
        "findMany",
        "prisma.event.findMany({ where: { organizationId } })",
    )
    .expect("supported Prisma call should be interpreted");

    assert!(preview.statement.starts_with("SELECT *\nFROM Event"));
    assert_eq!(preview.limitations.len(), 1);
}

#[test]
fn find_many_with_take_has_a_placeholder_limit() {
    let preview = interpret_prisma_call("event", "findMany", "prisma.event.findMany({ take: 10 })")
        .expect("findMany is supported");
    assert_eq!(preview.statement, "SELECT *\nFROM Event\nLIMIT ?");
    assert_eq!(
        preview.limitations,
        vec!["No explicit Prisma select was found; returned scalar columns depend on the schema."]
    );
}

#[test]
fn counts_with_a_where_clause() {
    let preview = interpret_prisma_call("user", "count", "prisma.user.count({ where: { active: true } })")
        .expect("count is supported");
    assert_eq!(preview.statement, "SELECT COUNT(*)\nFROM User\nWHERE active = true");
    assert!(preview.limitations.is_empty());
}

#[test]
fn inserts_the_data_columns() {
    let preview = interpret_prisma_call("user", "create", "prisma.user.create({ data: { name, email } })")
        .expect("create is supported");
    assert_eq!(preview.statement, "INSERT INTO User (name, email)\nVALUES (?, ?)");
    assert!(preview.limitations.is_empty());
}

#[test]
fn insert_without_a_static_payload_is_called_out() {
    let preview = interpret_prisma_call("user", "createMany", "prisma.user.createMany(input)")
        .expect("createMany is supported");
    assert_eq!(preview.statement, "INSERT INTO User\nVALUES (?)");
    assert_eq!(
        preview.limitations,
        vec!["The Prisma data payload could not be resolved statically."]
    );

    let empty = interpret_prisma_call("user", "create", "prisma.user.create({ data: {} })")
        .expect("create is supported");
    assert_eq!(empty.statement, "INSERT INTO User\nVALUES (?)");
    assert_eq!(empty.limitations, vec!["The Prisma data payload is dynamic."]);
}

#[test]
fn updates_set_each_data_column() {
    let preview = interpret_prisma_call(
        "user",
        "update",
        "prisma.user.update({ where: { id }, data: { name: 'x', age: 3 } })",
    )
    .expect("update is supported");
    assert_eq!(preview.statement, "UPDATE User\nSET name = ?, age = ?\nWHERE id = ?");

    let dynamic = interpret_prisma_call("user", "updateMany", "prisma.user.updateMany(args)")
        .expect("updateMany is supported");
    assert_eq!(dynamic.statement, "UPDATE User\nSET <dynamic data>");
    assert_eq!(dynamic.limitations, vec!["The Prisma update payload is dynamic."]);
}

#[test]
fn deletes_with_operators() {
    let preview = interpret_prisma_call(
        "session",
        "deleteMany",
        "prisma.session.deleteMany({ where: { expiresAt: { lt: now } } })",
    )
    .expect("deleteMany is supported");
    assert_eq!(preview.statement, "DELETE FROM Session\nWHERE expiresAt < ?");
}

#[test]
fn upsert_is_described_with_its_limitation() {
    let preview = interpret_prisma_call("order", "upsert", "prisma.order.upsert({})")
        .expect("upsert is supported");
    assert_eq!(preview.statement, "UPSERT INTO Order\nUSING Prisma create/update payload");
    assert_eq!(
        preview.limitations,
        vec!["Upsert conflict target is resolved by Prisma at runtime."]
    );
}

#[test]
fn unknown_operations_are_not_interpreted() {
    assert!(interpret_prisma_call("event", "aggregate", "prisma.event.aggregate({})").is_none());
    assert!(interpret_prisma_call("event", "groupBy", "prisma.event.groupBy({})").is_none());
}

#[test]
fn conditions_cover_nulls_operators_and_literals() {
    let preview = interpret_prisma_call(
        "user",
        "findUnique",
        "prisma.user.findUnique({ where: { deletedAt: null, archivedAt: { not: null }, id: { in: ids }, name: { contains: q }, score: 1.5, rank: { gte: 2 }, role: { not: 'x' } } })",
    )
    .expect("findUnique is supported");
    assert_eq!(
        preview.statement,
        "SELECT *\nFROM User\nWHERE deletedAt IS NULL AND archivedAt IS NOT NULL AND id IN (?) AND name LIKE ? AND score = 1.5 AND rank >= ? AND role <> ?\nLIMIT 1"
    );
}

#[test]
fn complex_and_unknown_predicates_are_called_out() {
    let preview = interpret_prisma_call(
        "user",
        "findFirstOrThrow",
        "prisma.user.findFirstOrThrow({ where: { ...scope, OR: [a, b], name: { equals: n } } })",
    )
    .expect("findFirstOrThrow is supported");
    assert_eq!(preview.statement, "SELECT *\nFROM User\nWHERE name = ?\nLIMIT 1");
    assert_eq!(
        preview.limitations,
        vec![
            "No explicit Prisma select was found; returned scalar columns depend on the schema.",
            "Complex `...scope` predicate was not expanded.",
            "Complex `OR` predicate was not expanded.",
            "Predicate `name.equals` was simplified.",
        ]
    );
}

#[test]
fn special_float_literals_compare_as_values() {
    let preview = interpret_prisma_call(
        "metric",
        "findMany",
        "prisma.metric.findMany({ select: { id: true, raw: false }, where: { a: -2e3, b: NaN, c: inf, d: 1., e: .5, f: 1_000 } })",
    )
    .expect("findMany is supported");
    assert_eq!(
        preview.statement,
        "SELECT id\nFROM Metric\nWHERE a = -2e3 AND b = NaN AND c = inf AND d = 1. AND e = .5 AND f = ?"
    );
    assert!(preview.limitations.is_empty());
}
