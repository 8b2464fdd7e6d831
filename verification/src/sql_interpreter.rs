//! Readable SQL-shaped previews of static Prisma calls.
//!
//! A preview is an interpretation, not the SQL that Prisma emits: what could
//! not be resolved from source text is listed as a limitation.
use vstd::prelude::*;

use crate::model::InterpretedSql;
use crate::object_literal::{
    has_property, object_entries, object_entries_spec, property_object, property_object_spec,
    property_value_spec,
};
use crate::text::{
    append, append_str, chars_of, decimal, decimal_of, ends_with, find, find_char, is, join,
    join_with,
    lemma_chars_deep_view, lemma_find_bounds, lower, lowered, slice_of, starts_with,
    starts_with_str, string_of, title_case, title_case_spec, trim, trimmed,
};

verus! {

broadcast use lemma_chars_deep_view;

// ---------------------------------------------------------------------------
// Numbers as `str::parse::<f64>` accepts them
// ---------------------------------------------------------------------------

pub open spec fn is_digit(c: char) -> bool {
    '0' <= c <= '9'
}

pub open spec fn all_digits(s: Seq<char>) -> bool {
    forall|i: int| 0 <= i < s.len() ==> is_digit(#[trigger] s[i])
}

pub open spec fn is_sign(c: char) -> bool {
    c == '+' || c == '-'
}

/// `s` without a leading sign.
pub open spec fn unsigned(s: Seq<char>) -> Seq<char> {
    if s.len() > 0 && is_sign(s[0]) {
        s.drop_first()
    } else {
        s
    }
}

/// `Digit+ | Digit+ '.' Digit* | Digit* '.' Digit+`
pub open spec fn is_mantissa(m: Seq<char>) -> bool {
    match find(m, seq!['.']) {
        None => m.len() > 0 && all_digits(m),
        Some(k) => all_digits(m.take(k)) && all_digits(m.skip(k + 1)) && m.len() > 1,
    }
}

/// `Sign? Digit+`
pub open spec fn is_exponent(x: Seq<char>) -> bool {
    unsigned(x).len() > 0 && all_digits(unsigned(x))
}

/// `Number ::= Mantissa Exp?`, the exponent marker `e` in either case.
pub open spec fn is_number(s: Seq<char>) -> bool {
    match find(lower(s), seq!['e']) {
        None => is_mantissa(s),
        Some(k) => is_mantissa(s.take(k)) && is_exponent(s.skip(k + 1)),
    }
}

/// Whether `s` is in the grammar that `f64`'s `FromStr` documents:
/// `Sign? ( 'inf' | 'infinity' | 'nan' | Number )`, case-insensitively.
pub open spec fn float_literal(s: Seq<char>) -> bool {
    let b = unsigned(s);
    lower(b) == "inf"@ || lower(b) == "infinity"@ || lower(b) == "nan"@ || is_number(b)
}

fn digits_only(s: &Vec<char>) -> (r: bool)
    ensures
        r == all_digits(s@),
{
    let mut i: usize = 0;
    while i < s.len()
        invariant
            i <= s.len(),
            forall|j: int| 0 <= j < i ==> is_digit(#[trigger] s@[j]),
        decreases s.len() - i,
    {
        if !('0' <= s[i] && s[i] <= '9') {
            return false;
        }
        i += 1;
    }
    true
}

fn mantissa(m: &Vec<char>) -> (r: bool)
    ensures
        r == is_mantissa(m@),
{
    match find_char(m, '.') {
        None => m.len() > 0 && digits_only(m),
        Some(k) => {
            proof {
                lemma_find_bounds(m@, seq!['.'], 0);
            }
            let before = slice_of(m, 0, k);
            let after = slice_of(m, k + 1, m.len());
            assert(before@ == m@.take(k as int));
            assert(after@ == m@.skip(k + 1));
            digits_only(&before) && digits_only(&after) && m.len() > 1
        },
    }
}

fn exponent(x: &Vec<char>) -> (r: bool)
    ensures
        r == is_exponent(x@),
{
    let d = if x.len() > 0 && (x[0] == '+' || x[0] == '-') {
        slice_of(x, 1, x.len())
    } else {
        slice_of(x, 0, x.len())
    };
    assert(d@ == unsigned(x@));
    d.len() > 0 && digits_only(&d)
}

fn number(s: &Vec<char>) -> (r: bool)
    ensures
        r == is_number(s@),
{
    let ls = lowered(s);
    match find_char(&ls, 'e') {
        None => mantissa(s),
        Some(k) => {
            proof {
                lemma_find_bounds(ls@, seq!['e'], 0);
            }
            let m = slice_of(s, 0, k);
            let x = slice_of(s, k + 1, s.len());
            assert(m@ == s@.take(k as int));
            assert(x@ == s@.skip(k + 1));
            mantissa(&m) && exponent(&x)
        },
    }
}

/// Whether `s` parses as an `f64`.
pub fn parses_as_float(s: &Vec<char>) -> (r: bool)
    ensures
        r == float_literal(s@),
{
    let b = if s.len() > 0 && (s[0] == '+' || s[0] == '-') {
        slice_of(s, 1, s.len())
    } else {
        slice_of(s, 0, s.len())
    };
    assert(b@ == unsigned(s@));
    let lb = lowered(&b);
    if is(&lb, "inf") || is(&lb, "infinity") || is(&lb, "nan") {
        return true;
    }
    number(&b)
}

// ---------------------------------------------------------------------------
// Specification of the interpretation
// ---------------------------------------------------------------------------

pub open spec fn opt_seq<A>(o: Option<A>) -> Seq<A> {
    match o {
        Some(x) => seq![x],
        None => Seq::empty(),
    }
}

pub open spec fn opt_chars(o: Option<Vec<char>>) -> Option<Seq<char>> {
    match o {
        Some(v) => Some(v@),
        None => None,
    }
}

/// Keys whose condition is not expanded: spreads and boolean combinators.
pub open spec fn is_complex_key(key: Seq<char>) -> bool {
    starts_with(key, "..."@) || key == "AND"@ || key == "OR"@ || key == "NOT"@
}

/// The SQL condition for a Prisma filter operator, and the note when the
/// operator is not known.
pub open spec fn operator_condition(key: Seq<char>, op: Seq<char>, operand: Seq<char>) -> (
    Seq<char>,
    Option<Seq<char>>,
) {
    if op == "in"@ {
        (key + " IN (?)"@, None)
    } else if op == "notIn"@ {
        (key + " NOT IN (?)"@, None)
    } else if op == "gt"@ {
        (key + " > ?"@, None)
    } else if op == "gte"@ {
        (key + " >= ?"@, None)
    } else if op == "lt"@ {
        (key + " < ?"@, None)
    } else if op == "lte"@ {
        (key + " <= ?"@, None)
    } else if op == "not"@ && trim(operand) == "null"@ {
        (key + " IS NOT NULL"@, None)
    } else if op == "not"@ {
        (key + " <> ?"@, None)
    } else if op == "contains"@ || op == "startsWith"@ || op == "endsWith"@ {
        (key + " LIKE ?"@, None)
    } else {
        (key + " = ?"@, Some("Predicate `"@ + key + "."@ + op + "` was simplified."@))
    }
}

/// Whether `v` is written `{ ... }`.
pub open spec fn is_braced(v: Seq<char>) -> bool {
    v.len() > 0 && v[0] == '{' && v[v.len() - 1] == '}'
}

/// The condition for one `where` entry, and the note it adds, if any.
pub open spec fn condition_spec(key: Seq<char>, value: Seq<char>) -> (
    Option<Seq<char>>,
    Option<Seq<char>>,
) {
    if is_complex_key(key) {
        (None, Some("Complex `"@ + key + "` predicate was not expanded."@))
    } else {
        let v = trim(value);
        if v == "null"@ {
            (Some(key + " IS NULL"@), None)
        } else if v == "true"@ || v == "false"@ || float_literal(v) {
            (Some(key + " = "@ + v), None)
        } else if is_braced(v) && object_entries_spec(v.subrange(1, v.len() - 1)).len() > 0 {
            let first = object_entries_spec(v.subrange(1, v.len() - 1))[0];
            let (c, note) = operator_condition(key, first.0, first.1);
            (Some(c), note)
        } else {
            (Some(key + " = ?"@), None)
        }
    }
}

/// The conditions of a `where` object's entries, and the notes they add, in order.
pub open spec fn conditions_of(entries: Seq<(Seq<char>, Seq<char>)>) -> (
    Seq<Seq<char>>,
    Seq<Seq<char>>,
)
    decreases entries.len(),
{
    if entries.len() == 0 {
        (Seq::empty(), Seq::empty())
    } else {
        let (cs, ns) = conditions_of(entries.drop_last());
        let (c, n) = condition_spec(entries.last().0, entries.last().1);
        (cs + opt_seq(c), ns + opt_seq(n))
    }
}

/// The `WHERE` line (none, or one), and the notes, for `expression`.
pub open spec fn where_spec(e: Seq<char>) -> (Seq<Seq<char>>, Seq<Seq<char>>) {
    match property_object_spec(e, "where"@) {
        None => (Seq::empty(), Seq::empty()),
        Some(w) => {
            let (cs, ns) = conditions_of(object_entries_spec(w));
            (
                if cs.len() > 0 {
                    seq!["WHERE "@ + join(cs, " AND "@)]
                } else {
                    Seq::empty()
                },
                ns,
            )
        },
    }
}

/// The keys of the entries whose value is `true`.
pub open spec fn true_keys(entries: Seq<(Seq<char>, Seq<char>)>) -> Seq<Seq<char>>
    decreases entries.len(),
{
    if entries.len() == 0 {
        Seq::empty()
    } else if trim(entries.last().1) == "true"@ {
        true_keys(entries.drop_last()).push(entries.last().0)
    } else {
        true_keys(entries.drop_last())
    }
}

/// The keys of the entries.
pub open spec fn keys_of(entries: Seq<(Seq<char>, Seq<char>)>) -> Seq<Seq<char>> {
    entries.map_values(|e: (Seq<char>, Seq<char>)| e.0)
}

/// `key = ?` for each entry.
pub open spec fn assignments_of(entries: Seq<(Seq<char>, Seq<char>)>) -> Seq<Seq<char>> {
    entries.map_values(|e: (Seq<char>, Seq<char>)| e.0 + " = ?"@)
}

/// `n` question marks.
pub open spec fn placeholders(n: nat) -> Seq<Seq<char>> {
    Seq::new(n, |i: int| "?"@)
}

/// The columns that `select` lists with `true`, joined; none when there are none.
pub open spec fn selected_columns_spec(e: Seq<char>) -> Option<Seq<char>> {
    match property_object_spec(e, "select"@) {
        None => None,
        Some(select) => {
            let columns = true_keys(object_entries_spec(select));
            if columns.len() > 0 {
                Some(join(columns, ", "@))
            } else {
                None
            }
        },
    }
}

pub open spec fn limit_lines(limit: Option<usize>) -> Seq<Seq<char>> {
    match limit {
        None => Seq::empty(),
        Some(n) => seq![
            if n == 0 {
                "LIMIT ?"@
            } else {
                "LIMIT "@ + decimal(n as nat)
            },
        ],
    }
}

pub open spec fn no_select_note() -> Seq<char> {
    "No explicit Prisma select was found; returned scalar columns depend on the schema."@
}

pub open spec fn unresolved_data_note() -> Seq<char> {
    "The Prisma data payload could not be resolved statically."@
}

pub open spec fn dynamic_data_note() -> Seq<char> {
    "The Prisma data payload is dynamic."@
}

pub open spec fn dynamic_update_note() -> Seq<char> {
    "The Prisma update payload is dynamic."@
}

pub open spec fn upsert_note() -> Seq<char> {
    "Upsert conflict target is resolved by Prisma at runtime."@
}

/// A `SELECT` over `table`: statement and notes.
pub open spec fn select_spec(table: Seq<char>, e: Seq<char>, limit: Option<usize>) -> (
    Seq<char>,
    Seq<Seq<char>>,
) {
    let (columns, n0) = match selected_columns_spec(e) {
        Some(c) => (c, Seq::empty()),
        None => ("*"@, seq![no_select_note()]),
    };
    let (w, nw) = where_spec(e);
    (
        join(seq!["SELECT "@ + columns, "FROM "@ + table] + w + limit_lines(limit), "\n"@),
        n0 + nw,
    )
}

/// A `SELECT COUNT(*)` over `table`.
pub open spec fn count_spec(table: Seq<char>, e: Seq<char>) -> (Seq<char>, Seq<Seq<char>>) {
    let (w, nw) = where_spec(e);
    (join(seq!["SELECT COUNT(*)"@, "FROM "@ + table] + w, "\n"@), nw)
}

/// An `INSERT` into `table`.
pub open spec fn insert_spec(table: Seq<char>, e: Seq<char>) -> (Seq<char>, Seq<Seq<char>>) {
    match property_object_spec(e, "data"@) {
        None => ("INSERT INTO "@ + table + "\nVALUES (?)"@, seq![unresolved_data_note()]),
        Some(d) => {
            let columns = keys_of(object_entries_spec(d));
            if columns.len() == 0 {
                ("INSERT INTO "@ + table + "\nVALUES (?)"@, seq![dynamic_data_note()])
            } else {
                (
                    "INSERT INTO "@ + table + " ("@ + join(columns, ", "@) + ")\nVALUES ("@ + join(
                        placeholders(columns.len()),
                        ", "@,
                    ) + ")"@,
                    Seq::empty(),
                )
            }
        },
    }
}

/// An `UPDATE` of `table`.
pub open spec fn update_spec(table: Seq<char>, e: Seq<char>) -> (Seq<char>, Seq<Seq<char>>) {
    let assignments = match property_object_spec(e, "data"@) {
        Some(d) => assignments_of(object_entries_spec(d)),
        None => Seq::empty(),
    };
    let (set_line, n0) = if assignments.len() == 0 {
        ("SET <dynamic data>"@, seq![dynamic_update_note()])
    } else {
        ("SET "@ + join(assignments, ", "@), Seq::empty())
    };
    let (w, nw) = where_spec(e);
    (join(seq!["UPDATE "@ + table, set_line] + w, "\n"@), n0 + nw)
}

/// A `DELETE` from `table`.
pub open spec fn delete_spec(table: Seq<char>, e: Seq<char>) -> (Seq<char>, Seq<Seq<char>>) {
    let (w, nw) = where_spec(e);
    (join(seq!["DELETE FROM "@ + table] + w, "\n"@), nw)
}

/// The preview of `prisma.<model>.<operation>(...)` written as `expression`:
/// its statement and notes, or none for an operation it does not know.
pub open spec fn interpret_spec(model: Seq<char>, operation: Seq<char>, e: Seq<char>) -> Option<
    (Seq<char>, Seq<Seq<char>>),
> {
    let table = title_case_spec(model);
    if operation == "findFirst"@ || operation == "findUnique"@ || operation == "findFirstOrThrow"@
        || operation == "findUniqueOrThrow"@ {
        Some(select_spec(table, e, Some(1usize)))
    } else if operation == "findMany"@ {
        Some(
            select_spec(
                table,
                e,
                if property_value_spec(e, "take"@) is Some {
                    Some(0usize)
                } else {
                    None
                },
            ),
        )
    } else if operation == "count"@ {
        Some(count_spec(table, e))
    } else if operation == "create"@ || operation == "createMany"@ {
        Some(insert_spec(table, e))
    } else if operation == "update"@ || operation == "updateMany"@ {
        Some(update_spec(table, e))
    } else if operation == "delete"@ || operation == "deleteMany"@ {
        Some(delete_spec(table, e))
    } else if operation == "upsert"@ {
        Some(
            (
                "UPSERT INTO "@ + table + "\nUSING Prisma create/update payload"@,
                seq![upsert_note()],
            ),
        )
    } else {
        None
    }
}

// ---------------------------------------------------------------------------
// Execution
// ---------------------------------------------------------------------------

fn note(limitations: &mut Vec<Vec<char>>, n: Vec<char>)
    ensures
        final(limitations).deep_view() == old(limitations).deep_view().push(n@),
{
    let ghost before = limitations.deep_view();
    limitations.push(n);
    assert(limitations.deep_view() =~= before.push(n@));
}

fn push_line(lines: &mut Vec<Vec<char>>, n: Vec<char>)
    ensures
        final(lines).deep_view() == old(lines).deep_view().push(n@),
{
    let ghost before = lines.deep_view();
    lines.push(n);
    assert(lines.deep_view() =~= before.push(n@));
}

/// `a` followed by the string `s`.
fn with(a: &Vec<char>, s: &str) -> (r: Vec<char>)
    ensures
        r@ == a@ + s@,
{
    let mut r: Vec<char> = Vec::new();
    append(&mut r, a);
    append_str(&mut r, s);
    r
}

/// The string `s` followed by `a`.
fn after(s: &str, a: &Vec<char>) -> (r: Vec<char>)
    ensures
        r@ == s@ + a@,
{
    let mut r = chars_of(s);
    append(&mut r, a);
    r
}

fn operator_sql(key: &Vec<char>, op: &Vec<char>, operand: &Vec<char>) -> (r: (
    Vec<char>,
    Option<Vec<char>>,
))
    ensures
        (r.0@, opt_chars(r.1)) == operator_condition(key@, op@, operand@),
{
    if is(op, "in") {
        (with(key, " IN (?)"), None)
    } else if is(op, "notIn") {
        (with(key, " NOT IN (?)"), None)
    } else if is(op, "gt") {
        (with(key, " > ?"), None)
    } else if is(op, "gte") {
        (with(key, " >= ?"), None)
    } else if is(op, "lt") {
        (with(key, " < ?"), None)
    } else if is(op, "lte") {
        (with(key, " <= ?"), None)
    } else if is(op, "not") && is(&trimmed(operand), "null") {
        (with(key, " IS NOT NULL"), None)
    } else if is(op, "not") {
        (with(key, " <> ?"), None)
    } else if is(op, "contains") || is(op, "startsWith") || is(op, "endsWith") {
        (with(key, " LIKE ?"), None)
    } else {
        let mut n = after("Predicate `", key);
        append_str(&mut n, ".");
        append(&mut n, op);
        append_str(&mut n, "` was simplified.");
        (with(key, " = ?"), Some(n))
    }
}

/// The SQL condition for the `where` entry `key: value`; a note goes to
/// `limitations` when the entry is not expanded or is simplified.
pub fn condition(key: &Vec<char>, value: &Vec<char>, limitations: &mut Vec<Vec<char>>) -> (r:
    Option<Vec<char>>)
    ensures
        opt_chars(r) == condition_spec(key@, value@).0,
        final(limitations).deep_view() == old(limitations).deep_view() + opt_seq(
            condition_spec(key@, value@).1,
        ),
{
    if starts_with_str(key, "...") || is(key, "AND") || is(key, "OR") || is(key, "NOT") {
        let mut n = after("Complex `", key);
        append_str(&mut n, "` predicate was not expanded.");
        note(limitations, n);
        return None;
    }
    let v = trimmed(value);
    if is(&v, "null") {
        return Some(with(key, " IS NULL"));
    }
    if is(&v, "true") || is(&v, "false") || parses_as_float(&v) {
        let mut c = with(key, " = ");
        append(&mut c, &v);
        return Some(c);
    }
    if v.len() > 0 && v[0] == '{' && v[v.len() - 1] == '}' {
        let inner = slice_of(&v, 1, v.len() - 1);
        let nested = object_entries(&inner);
        if nested.len() > 0 {
            let (c, n) = operator_sql(key, &nested[0].0, &nested[0].1);
            match n {
                Some(n) => note(limitations, n),
                None => {},
            }
            return Some(c);
        }
    }
    Some(with(key, " = ?"))
}

/// Adds the `WHERE` line of `expression` to `lines`, and the notes of its
/// conditions to `limitations`.
pub fn append_where(
    lines: &mut Vec<Vec<char>>,
    expression: &Vec<char>,
    limitations: &mut Vec<Vec<char>>,
)
    ensures
        final(lines).deep_view() == old(lines).deep_view() + where_spec(expression@).0,
        final(limitations).deep_view() == old(limitations).deep_view() + where_spec(
            expression@,
        ).1,
{
    let where_object = match property_object(expression, &chars_of("where")) {
        Some(w) => w,
        None => {
            assert(lines.deep_view() == lines.deep_view() + Seq::<Seq<char>>::empty());
            assert(limitations.deep_view() == limitations.deep_view() + Seq::<Seq<char>>::empty());
            return;
        },
    };
    let entries = object_entries(&where_object);
    let ghost ev = entries.deep_view();
    let ghost lim0 = limitations.deep_view();
    let mut conditions: Vec<Vec<char>> = Vec::new();
    let mut i: usize = 0;
    while i < entries.len()
        invariant
            i <= entries.len(),
            ev == entries.deep_view(),
            conditions.deep_view() == conditions_of(ev.take(i as int)).0,
            limitations.deep_view() == lim0 + conditions_of(ev.take(i as int)).1,
        decreases entries.len() - i,
    {
        assert(ev.take(i + 1).drop_last() == ev.take(i as int));
        assert(ev[i as int] == (entries[i as int].0@, entries[i as int].1@));
        let c = condition(&entries[i].0, &entries[i].1, limitations);
        match c {
            Some(c) => push_line(&mut conditions, c),
            None => {},
        }
        i += 1;
    }
    assert(ev.take(entries.len() as int) == ev);
    assert(ev == object_entries_spec(where_object@));
    if conditions.len() > 0 {
        let line = after("WHERE ", &join_with(&conditions, " AND "));
        push_line(lines, line);
    } else {
        assert(lines.deep_view() == lines.deep_view() + Seq::<Seq<char>>::empty());
    }
}

/// The columns that the `select` of `expression` lists with `true`, joined
/// by `, `; none when there is no such column.
pub fn selected_columns(expression: &Vec<char>) -> (r: Option<Vec<char>>)
    ensures
        opt_chars(r) == selected_columns_spec(expression@),
{
    let select = match property_object(expression, &chars_of("select")) {
        Some(s) => s,
        None => return None,
    };
    let entries = object_entries(&select);
    let ghost ev = entries.deep_view();
    let mut columns: Vec<Vec<char>> = Vec::new();
    let mut i: usize = 0;
    while i < entries.len()
        invariant
            i <= entries.len(),
            ev == entries.deep_view(),
            columns.deep_view() == true_keys(ev.take(i as int)),
        decreases entries.len() - i,
    {
        assert(ev.take(i + 1).drop_last() == ev.take(i as int));
        assert(ev[i as int] == (entries[i as int].0@, entries[i as int].1@));
        assert(ev.take(i + 1).last() == ev[i as int]);
        if is(&trimmed(&entries[i].1), "true") {
            let k = slice_of(&entries[i].0, 0, entries[i].0.len());
            assert(k@ =~= entries[i as int].0@);
            push_line(&mut columns, k);
        }
        i += 1;
    }
    assert(ev.take(entries.len() as int) == ev);
    if columns.len() > 0 {
        Some(join_with(&columns, ", "))
    } else {
        None
    }
}

fn limit_line(lines: &mut Vec<Vec<char>>, limit: Option<usize>)
    ensures
        final(lines).deep_view() == old(lines).deep_view() + limit_lines(limit),
{
    match limit {
        Some(n) => {
            if n == 0 {
                push_line(lines, chars_of("LIMIT ?"));
            } else {
                let d = decimal_of(n as u64);
                push_line(lines, after("LIMIT ", &d));
            }
        },
        None => {
            assert(lines.deep_view() == lines.deep_view() + Seq::<Seq<char>>::empty());
        },
    }
}

/// A `SELECT` over `table` for the Prisma call `expression`.
pub fn select_statement(
    table: &Vec<char>,
    expression: &Vec<char>,
    limit: Option<usize>,
    limitations: &mut Vec<Vec<char>>,
) -> (r: Vec<char>)
    ensures
        r@ == select_spec(table@, expression@, limit).0,
        final(limitations).deep_view() == old(limitations).deep_view() + select_spec(
            table@,
            expression@,
            limit,
        ).1,
{
    let ghost lim0 = limitations.deep_view();
    let columns = match selected_columns(expression) {
        Some(c) => {
            assert(limitations.deep_view() == lim0 + Seq::<Seq<char>>::empty());
            c
        },
        None => {
            note(
                limitations,
                chars_of(
                    "No explicit Prisma select was found; returned scalar columns depend on the schema.",
                ),
            );
            chars_of("*")
        },
    };
    let ghost lim1 = limitations.deep_view();
    let mut lines: Vec<Vec<char>> = Vec::new();
    push_line(&mut lines, after("SELECT ", &columns));
    push_line(&mut lines, after("FROM ", table));
    let ghost l2 = lines.deep_view();
    append_where(&mut lines, expression, limitations);
    let ghost l3 = lines.deep_view();
    limit_line(&mut lines, limit);
    assert(l2 =~= seq!["SELECT "@ + columns@, "FROM "@ + table@]);
    assert(lines.deep_view() == seq!["SELECT "@ + columns@, "FROM "@ + table@] + where_spec(
        expression@,
    ).0 + limit_lines(limit));
    assert(limitations.deep_view() == lim0 + select_spec(table@, expression@, limit).1);
    join_with(&lines, "\n")
}

/// A `SELECT COUNT(*)` over `table`.
pub fn count_statement(table: &Vec<char>, expression: &Vec<char>, limitations: &mut Vec<Vec<char>>) -> (r:
    Vec<char>)
    ensures
        r@ == count_spec(table@, expression@).0,
        final(limitations).deep_view() == old(limitations).deep_view() + count_spec(
            table@,
            expression@,
        ).1,
{
    let mut lines: Vec<Vec<char>> = Vec::new();
    push_line(&mut lines, chars_of("SELECT COUNT(*)"));
    push_line(&mut lines, after("FROM ", table));
    assert(lines.deep_view() =~= seq!["SELECT COUNT(*)"@, "FROM "@ + table@]);
    append_where(&mut lines, expression, limitations);
    join_with(&lines, "\n")
}

/// An `INSERT` into `table` of the columns of the `data` payload.
pub fn insert_statement(
    table: &Vec<char>,
    expression: &Vec<char>,
    limitations: &mut Vec<Vec<char>>,
) -> (r: Vec<char>)
    ensures
        r@ == insert_spec(table@, expression@).0,
        final(limitations).deep_view() == old(limitations).deep_view() + insert_spec(
            table@,
            expression@,
        ).1,
{
    let data = match property_object(expression, &chars_of("data")) {
        Some(d) => d,
        None => {
            note(limitations, chars_of("The Prisma data payload could not be resolved statically."));
            let mut r = after("INSERT INTO ", table);
            append_str(&mut r, "\nVALUES (?)");
            return r;
        },
    };
    let entries = object_entries(&data);
    let ghost ev = entries.deep_view();
    let mut columns: Vec<Vec<char>> = Vec::new();
    let mut marks: Vec<Vec<char>> = Vec::new();
    let mut i: usize = 0;
    while i < entries.len()
        invariant
            i <= entries.len(),
            ev == entries.deep_view(),
            columns.deep_view() == keys_of(ev.take(i as int)),
            marks.deep_view() == placeholders(i as nat),
        decreases entries.len() - i,
    {
        assert(ev[i as int] == (entries[i as int].0@, entries[i as int].1@));
        let k = slice_of(&entries[i].0, 0, entries[i].0.len());
        assert(k@ =~= entries[i as int].0@);
        push_line(&mut columns, k);
        push_line(&mut marks, chars_of("?"));
        assert(keys_of(ev.take(i + 1)) =~= keys_of(ev.take(i as int)).push(ev[i as int].0));
        assert(placeholders((i + 1) as nat) =~= placeholders(i as nat).push("?"@));
        i += 1;
    }
    assert(ev.take(entries.len() as int) == ev);
    if columns.len() == 0 {
        note(limitations, chars_of("The Prisma data payload is dynamic."));
        let mut r = after("INSERT INTO ", table);
        append_str(&mut r, "\nVALUES (?)");
        return r;
    }
    let mut r = after("INSERT INTO ", table);
    append_str(&mut r, " (");
    append(&mut r, &join_with(&columns, ", "));
    append_str(&mut r, ")\nVALUES (");
    append(&mut r, &join_with(&marks, ", "));
    append_str(&mut r, ")");
    assert(limitations.deep_view() == limitations.deep_view() + Seq::<Seq<char>>::empty());
    r
}

/// An `UPDATE` of `table` setting the columns of the `data` payload.
pub fn update_statement(
    table: &Vec<char>,
    expression: &Vec<char>,
    limitations: &mut Vec<Vec<char>>,
) -> (r: Vec<char>)
    ensures
        r@ == update_spec(table@, expression@).0,
        final(limitations).deep_view() == old(limitations).deep_view() + update_spec(
            table@,
            expression@,
        ).1,
{
    let ghost lim0 = limitations.deep_view();
    let mut assignments: Vec<Vec<char>> = Vec::new();
    match property_object(expression, &chars_of("data")) {
        Some(data) => {
            let entries = object_entries(&data);
            let ghost ev = entries.deep_view();
            let mut i: usize = 0;
            while i < entries.len()
                invariant
                    i <= entries.len(),
                    ev == entries.deep_view(),
                    assignments.deep_view() == assignments_of(ev.take(i as int)),
                decreases entries.len() - i,
            {
                assert(ev[i as int] == (entries[i as int].0@, entries[i as int].1@));
                push_line(&mut assignments, with(&entries[i].0, " = ?"));
                assert(assignments_of(ev.take(i + 1)) =~= assignments_of(ev.take(i as int)).push(
                    ev[i as int].0 + " = ?"@,
                ));
                i += 1;
            }
            assert(ev.take(entries.len() as int) == ev);
        },
        None => {
            assert(assignments.deep_view() =~= Seq::<Seq<char>>::empty());
        },
    }
    let mut lines: Vec<Vec<char>> = Vec::new();
    push_line(&mut lines, after("UPDATE ", table));
    if assignments.len() == 0 {
        push_line(&mut lines, chars_of("SET <dynamic data>"));
        note(limitations, chars_of("The Prisma update payload is dynamic."));
    } else {
        push_line(&mut lines, after("SET ", &join_with(&assignments, ", ")));
        assert(limitations.deep_view() == lim0 + Seq::<Seq<char>>::empty());
    }
    let ghost l2 = lines.deep_view();
    append_where(&mut lines, expression, limitations);
    proof {
        let set_line = if assignments@.len() == 0 {
            "SET <dynamic data>"@
        } else {
            "SET "@ + join(assignments.deep_view(), ", "@)
        };
        assert(l2 =~= seq!["UPDATE "@ + table@, set_line]);
    }
    join_with(&lines, "\n")
}

/// A `DELETE` from `table`.
pub fn delete_statement(
    table: &Vec<char>,
    expression: &Vec<char>,
    limitations: &mut Vec<Vec<char>>,
) -> (r: Vec<char>)
    ensures
        r@ == delete_spec(table@, expression@).0,
        final(limitations).deep_view() == old(limitations).deep_view() + delete_spec(
            table@,
            expression@,
        ).1,
{
    let mut lines: Vec<Vec<char>> = Vec::new();
    push_line(&mut lines, after("DELETE FROM ", table));
    assert(lines.deep_view() =~= seq!["DELETE FROM "@ + table@]);
    append_where(&mut lines, expression, limitations);
    join_with(&lines, "\n")
}

/// The strings of `v`.
pub fn strings_of(v: &Vec<Vec<char>>) -> (r: Vec<String>)
    ensures
        r.deep_view() == v.deep_view(),
{
    let mut r: Vec<String> = Vec::new();
    let mut i: usize = 0;
    while i < v.len()
        invariant
            i <= v.len(),
            r.deep_view() == v.deep_view().take(i as int),
        decreases v.len() - i,
    {
        let ghost before = r.deep_view();
        let si = string_of(&v[i]);
        r.push(si);
        assert(r.deep_view() =~= before.push(v[i as int]@));
        assert(v.deep_view()[i as int] == v[i as int]@);
        assert(r.deep_view() =~= v.deep_view().take(i + 1));
        i += 1;
    }
    assert(v.deep_view().take(v.len() as int) =~= v.deep_view());
    r
}

/// The SQL-shaped preview of `prisma.<model>.<operation>(...)`, written
/// in source as `expression`; none for an operation it does not know.
pub fn interpret_prisma_call(model: &str, operation: &str, expression: &str) -> (r: Option<
    InterpretedSql,
>)
    ensures
        r is Some <==> interpret_spec(model@, operation@, expression@) is Some,
        r matches Some(sql) ==> sql.statement@ == interpret_spec(
            model@,
            operation@,
            expression@,
        ).unwrap().0 && sql.limitations.deep_view() == interpret_spec(
            model@,
            operation@,
            expression@,
        ).unwrap().1,
{
    let op = chars_of(operation);
    let e = chars_of(expression);
    let table = title_case(&chars_of(model));
    let mut limitations: Vec<Vec<char>> = Vec::new();
    assert(limitations.deep_view() =~= Seq::<Seq<char>>::empty());
    let statement = if is(&op, "findFirst") || is(&op, "findUnique") || is(&op, "findFirstOrThrow")
        || is(&op, "findUniqueOrThrow") {
        select_statement(&table, &e, Some(1), &mut limitations)
    } else if is(&op, "findMany") {
        let limit = if has_property(&e, &chars_of("take")) {
            Some(0)
        } else {
            None
        };
        select_statement(&table, &e, limit, &mut limitations)
    } else if is(&op, "count") {
        count_statement(&table, &e, &mut limitations)
    } else if is(&op, "create") || is(&op, "createMany") {
        insert_statement(&table, &e, &mut limitations)
    } else if is(&op, "update") || is(&op, "updateMany") {
        update_statement(&table, &e, &mut limitations)
    } else if is(&op, "delete") || is(&op, "deleteMany") {
        delete_statement(&table, &e, &mut limitations)
    } else if is(&op, "upsert") {
        note(&mut limitations, chars_of("Upsert conflict target is resolved by Prisma at runtime."));
        let mut r = after("UPSERT INTO ", &table);
        append_str(&mut r, "\nUSING Prisma create/update payload");
        r
    } else {
        return None;
    };
    let limitations = strings_of(&limitations);
    Some(InterpretedSql { statement: string_of(&statement), limitations })
}

// ---------------------------------------------------------------------------
// Laws of previews
// ---------------------------------------------------------------------------

/// `c` compares `key` without copying a value from source, except the
/// literals `null`, `true`, `false` and numbers: every other value is a `?`.
pub open spec fn masked_condition(key: Seq<char>, c: Seq<char>) -> bool {
    exists|suffix: Seq<char>|
        #![trigger key + suffix]
        c == key + suffix && (suffix == " IS NULL"@ || suffix == " IS NOT NULL"@ || suffix
            == " IN (?)"@ || suffix == " NOT IN (?)"@ || (suffix.len() > 0 && suffix.last() == '?')
            || exists|v: Seq<char>|
            #![trigger " = "@ + v]
            suffix == " = "@ + v && (v == "true"@ || v == "false"@ || float_literal(v)))
}

proof fn lemma_ends_in_placeholder(key: Seq<char>, suffix: Seq<char>)
    requires
        suffix.len() > 0,
        suffix.last() == '?',
    ensures
        masked_condition(key, key + suffix),
{
}

/// Each Prisma filter operator becomes its SQL counterpart: `in` is
/// `IN (?)`, `notIn` is `NOT IN (?)`, `gt`, `gte`, `lt` and `lte` are `>`,
/// `>=`, `<` and `<=`, `not` is `<>` (or `IS NOT NULL` against `null`),
/// and `contains`, `startsWith` and `endsWith` are `LIKE`; none of them
/// adds a note.
pub proof fn lemma_filter_operators(key: Seq<char>, operand: Seq<char>)
    ensures
        operator_condition(key, "in"@, operand) == (key + " IN (?)"@, None::<Seq<char>>),
        operator_condition(key, "notIn"@, operand) == (key + " NOT IN (?)"@, None::<Seq<char>>),
        operator_condition(key, "gt"@, operand) == (key + " > ?"@, None::<Seq<char>>),
        operator_condition(key, "gte"@, operand) == (key + " >= ?"@, None::<Seq<char>>),
        operator_condition(key, "lt"@, operand) == (key + " < ?"@, None::<Seq<char>>),
        operator_condition(key, "lte"@, operand) == (key + " <= ?"@, None::<Seq<char>>),
        trim(operand) == "null"@ ==> operator_condition(key, "not"@, operand) == (
            key + " IS NOT NULL"@,
            None::<Seq<char>>,
        ),
        trim(operand) != "null"@ ==> operator_condition(key, "not"@, operand) == (
            key + " <> ?"@,
            None::<Seq<char>>,
        ),
        operator_condition(key, "contains"@, operand) == (key + " LIKE ?"@, None::<Seq<char>>),
        operator_condition(key, "startsWith"@, operand) == (key + " LIKE ?"@, None::<Seq<char>>),
        operator_condition(key, "endsWith"@, operand) == (key + " LIKE ?"@, None::<Seq<char>>),
{
    reveal_strlit("in");
    reveal_strlit("notIn");
    reveal_strlit("gt");
    reveal_strlit("gte");
    reveal_strlit("lt");
    reveal_strlit("lte");
    reveal_strlit("not");
    reveal_strlit("contains");
    reveal_strlit("startsWith");
    reveal_strlit("endsWith");
    assert("notIn"@ != "in"@) by {
        assert("notIn"@.len() != "in"@.len());
    }
    assert("gt"@ != "in"@) by {
        assert("gt"@[0] != "in"@[0]);
    }
    assert("gt"@ != "notIn"@) by {
        assert("gt"@.len() != "notIn"@.len());
    }
    assert("gte"@ != "in"@) by {
        assert("gte"@.len() != "in"@.len());
    }
    assert("gte"@ != "notIn"@) by {
        assert("gte"@.len() != "notIn"@.len());
    }
    assert("gte"@ != "gt"@) by {
        assert("gte"@.len() != "gt"@.len());
    }
    assert("lt"@ != "in"@) by {
        assert("lt"@[0] != "in"@[0]);
    }
    assert("lt"@ != "notIn"@) by {
        assert("lt"@.len() != "notIn"@.len());
    }
    assert("lt"@ != "gt"@) by {
        assert("lt"@[0] != "gt"@[0]);
    }
    assert("lt"@ != "gte"@) by {
        assert("lt"@.len() != "gte"@.len());
    }
    assert("lte"@ != "in"@) by {
        assert("lte"@.len() != "in"@.len());
    }
    assert("lte"@ != "notIn"@) by {
        assert("lte"@.len() != "notIn"@.len());
    }
    assert("lte"@ != "gt"@) by {
        assert("lte"@.len() != "gt"@.len());
    }
    assert("lte"@ != "gte"@) by {
        assert("lte"@[0] != "gte"@[0]);
    }
    assert("lte"@ != "lt"@) by {
        assert("lte"@.len() != "lt"@.len());
    }
    assert("not"@ != "in"@) by {
        assert("not"@.len() != "in"@.len());
    }
    assert("not"@ != "notIn"@) by {
        assert("not"@.len() != "notIn"@.len());
    }
    assert("not"@ != "gt"@) by {
        assert("not"@.len() != "gt"@.len());
    }
    assert("not"@ != "gte"@) by {
        assert("not"@[0] != "gte"@[0]);
    }
    assert("not"@ != "lt"@) by {
        assert("not"@.len() != "lt"@.len());
    }
    assert("not"@ != "lte"@) by {
        assert("not"@[0] != "lte"@[0]);
    }
    assert("contains"@ != "in"@) by {
        assert("contains"@.len() != "in"@.len());
    }
    assert("contains"@ != "notIn"@) by {
        assert("contains"@.len() != "notIn"@.len());
    }
    assert("contains"@ != "gt"@) by {
        assert("contains"@.len() != "gt"@.len());
    }
    assert("contains"@ != "gte"@) by {
        assert("contains"@.len() != "gte"@.len());
    }
    assert("contains"@ != "lt"@) by {
        assert("contains"@.len() != "lt"@.len());
    }
    assert("contains"@ != "lte"@) by {
        assert("contains"@.len() != "lte"@.len());
    }
    assert("contains"@ != "not"@) by {
        assert("contains"@.len() != "not"@.len());
    }
    assert("startsWith"@ != "in"@) by {
        assert("startsWith"@.len() != "in"@.len());
    }
    assert("startsWith"@ != "notIn"@) by {
        assert("startsWith"@.len() != "notIn"@.len());
    }
    assert("startsWith"@ != "gt"@) by {
        assert("startsWith"@.len() != "gt"@.len());
    }
    assert("startsWith"@ != "gte"@) by {
        assert("startsWith"@.len() != "gte"@.len());
    }
    assert("startsWith"@ != "lt"@) by {
        assert("startsWith"@.len() != "lt"@.len());
    }
    assert("startsWith"@ != "lte"@) by {
        assert("startsWith"@.len() != "lte"@.len());
    }
    assert("startsWith"@ != "not"@) by {
        assert("startsWith"@.len() != "not"@.len());
    }
    assert("startsWith"@ != "contains"@) by {
        assert("startsWith"@.len() != "contains"@.len());
    }
    assert("endsWith"@ != "in"@) by {
        assert("endsWith"@.len() != "in"@.len());
    }
    assert("endsWith"@ != "notIn"@) by {
        assert("endsWith"@.len() != "notIn"@.len());
    }
    assert("endsWith"@ != "gt"@) by {
        assert("endsWith"@.len() != "gt"@.len());
    }
    assert("endsWith"@ != "gte"@) by {
        assert("endsWith"@.len() != "gte"@.len());
    }
    assert("endsWith"@ != "lt"@) by {
        assert("endsWith"@.len() != "lt"@.len());
    }
    assert("endsWith"@ != "lte"@) by {
        assert("endsWith"@.len() != "lte"@.len());
    }
    assert("endsWith"@ != "not"@) by {
        assert("endsWith"@.len() != "not"@.len());
    }
    assert("endsWith"@ != "contains"@) by {
        assert("endsWith"@[0] != "contains"@[0]);
    }
    assert("endsWith"@ != "startsWith"@) by {
        assert("endsWith"@.len() != "startsWith"@.len());
    }
}

/// A `where` entry's value decides its condition: `null` tests `IS NULL`,
/// `true` and `false` are compared as written, and spreads, `AND`, `OR`
/// and `NOT` are not expanded but noted.
pub proof fn lemma_where_values(key: Seq<char>, value: Seq<char>)
    ensures
        (starts_with(key, "..."@) || key == "AND"@ || key == "OR"@ || key == "NOT"@)
            ==> condition_spec(key, value) == (
            None::<Seq<char>>,
            Some("Complex `"@ + key + "` predicate was not expanded."@),
        ),
        !(starts_with(key, "..."@) || key == "AND"@ || key == "OR"@ || key == "NOT"@) && trim(
            value,
        ) == "null"@ ==> condition_spec(key, value) == (
            Some(key + " IS NULL"@),
            None::<Seq<char>>,
        ),
        !(starts_with(key, "..."@) || key == "AND"@ || key == "OR"@ || key == "NOT"@) && (trim(
            value,
        ) == "true"@ || trim(value) == "false"@) ==> condition_spec(key, value) == (
            Some(key + " = "@ + trim(value)),
            None::<Seq<char>>,
        ),
{
    reveal_strlit("null");
    reveal_strlit("true");
    reveal_strlit("false");
    assert("true"@ != "null"@) by {
        assert("true"@[0] != "null"@[0]);
    }
    assert("false"@ != "null"@) by {
        assert("false"@.len() != "null"@.len());
    }
}

/// A preview's conditions never copy a value from the source but the
/// literals `null`, `true`, `false` and numbers: any other value, and any
/// operand of a filter operator, becomes a `?` placeholder.
pub proof fn lemma_conditions_mask_values(key: Seq<char>, value: Seq<char>)
    ensures
        condition_spec(key, value).0 matches Some(c) ==> masked_condition(key, c),
{
    reveal_strlit(" > ?");
    reveal_strlit(" >= ?");
    reveal_strlit(" < ?");
    reveal_strlit(" <= ?");
    reveal_strlit(" <> ?");
    reveal_strlit(" LIKE ?");
    reveal_strlit(" = ?");
    if !is_complex_key(key) {
        let v = trim(value);
        if v == "null"@ {
            assert(key + " IS NULL"@ == key + " IS NULL"@);
        } else if v == "true"@ || v == "false"@ || float_literal(v) {
            let suffix = " = "@ + v;
            assert(key + " = "@ + v =~= key + suffix);
        } else if is_braced(v) && object_entries_spec(v.subrange(1, v.len() - 1)).len() > 0 {
            let first = object_entries_spec(v.subrange(1, v.len() - 1))[0];
            let (op, operand) = (first.0, first.1);
            if op == "in"@ {
                assert(key + " IN (?)"@ == key + " IN (?)"@);
            } else if op == "notIn"@ {
                assert(key + " NOT IN (?)"@ == key + " NOT IN (?)"@);
            } else if op == "not"@ && trim(operand) == "null"@ {
                assert(key + " IS NOT NULL"@ == key + " IS NOT NULL"@);
            } else if op == "gt"@ {
                lemma_ends_in_placeholder(key, " > ?"@);
            } else if op == "gte"@ {
                lemma_ends_in_placeholder(key, " >= ?"@);
            } else if op == "lt"@ {
                lemma_ends_in_placeholder(key, " < ?"@);
            } else if op == "lte"@ {
                lemma_ends_in_placeholder(key, " <= ?"@);
            } else if op == "not"@ {
                lemma_ends_in_placeholder(key, " <> ?"@);
            } else if op == "contains"@ || op == "startsWith"@ || op == "endsWith"@ {
                lemma_ends_in_placeholder(key, " LIKE ?"@);
            } else {
                lemma_ends_in_placeholder(key, " = ?"@);
            }
        } else {
            lemma_ends_in_placeholder(key, " = ?"@);
        }
    }
}

/// A preview of a single-row read (`findFirst`, `findUnique` and their
/// `OrThrow` forms) is limited to one row: its last line is `LIMIT 1`.
pub proof fn lemma_single_row_reads_are_limited(model: Seq<char>, operation: Seq<char>, e: Seq<char>)
    requires
        operation == "findFirst"@ || operation == "findUnique"@ || operation == "findFirstOrThrow"@
            || operation == "findUniqueOrThrow"@,
    ensures
        interpret_spec(model, operation, e) is Some,
        ends_with(interpret_spec(model, operation, e).unwrap().0, "\nLIMIT 1"@),
{
    reveal_strlit("1");
    reveal_strlit("LIMIT ");
    reveal_strlit("LIMIT 1");
    reveal_strlit("\n");
    reveal_strlit("\nLIMIT 1");
    let table = title_case_spec(model);
    let (columns, n0) = match selected_columns_spec(e) {
        Some(c) => (c, Seq::<Seq<char>>::empty()),
        None => ("*"@, seq![no_select_note()]),
    };
    let (w, nw) = where_spec(e);
    let head = seq!["SELECT "@ + columns, "FROM "@ + table] + w;
    let lines = head + limit_lines(Some(1usize));
    assert(decimal(1) =~= "1"@);
    assert("LIMIT "@ + decimal(1) =~= "LIMIT 1"@);
    assert(limit_lines(Some(1usize)) =~= seq!["LIMIT 1"@]);
    assert(lines.drop_last() =~= head);
    assert(lines.last() == "LIMIT 1"@);
    let statement = join(lines, "\n"@);
    assert(statement == join(head, "\n"@) + "\n"@ + "LIMIT 1"@);
    assert("\n"@ + "LIMIT 1"@ =~= "\nLIMIT 1"@);
    assert(statement =~= join(head, "\n"@) + "\nLIMIT 1"@);
    assert(statement.skip(statement.len() - "\nLIMIT 1"@.len()) =~= "\nLIMIT 1"@);
    assert(interpret_spec(model, operation, e) == Some(select_spec(table, e, Some(1usize))));
}

} // verus!
