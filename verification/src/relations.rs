//! From route facts to endpoint contract graphs.
use vstd::prelude::*;

use crate::digest::{blake3_hex, blake3_hex_of, is_lower_hex_digit};
use crate::model::{
    opt_str, ApiContract, CallFact, ContractEdge, ContractEdgeKind, ContractNode, ContractNodeKind,
    ContractView, DataAccessFact, DataAccessKind, DataAccessView, EdgeView, FileAnalysis, NodeView,
    RouteFact, SourceSpan, SqlView, SymbolFact, SymbolKind,
};
use crate::object_literal::is_quote_char;
use crate::sort::{
    lemma_sort_elements, lemma_sort_map, lemma_sort_sorted, stable_sort, stable_sort_by,
    strict_weak,
};
use crate::sql_interpreter::{interpret_prisma_call, interpret_spec};
use crate::text::{
    append, append_str, chars_of, contains, contains_str, decimal, decimal_of, ends_with,
    ends_with_str, find, find_char, is, is_whitespace, is_ws, lemma_chars_deep_view,
    lemma_decimal_injective, lemma_find_bounds, find_from, lemma_seq_lt_order, less, lower, lowered, occurs_at,
    same, seq_lt, slice_of, starts_with, starts_with_str, string_of, title_case, title_case_spec,
};

verus! {

broadcast use lemma_chars_deep_view;

// ---------------------------------------------------------------------------
// Prisma calls and descriptions
// ---------------------------------------------------------------------------

/// The Prisma operations that change data.
pub open spec fn is_write_operation(op: Seq<char>) -> bool {
    op == "create"@ || op == "createMany"@ || op == "update"@ || op == "updateMany"@ || op
        == "upsert"@ || op == "delete"@ || op == "deleteMany"@
}

/// `prisma.<model>.<operation>` with exactly these two parts: model,
/// operation, and whether it reads or writes.
pub open spec fn parse_prisma_call_spec(callee: Seq<char>) -> Option<
    (Seq<char>, Seq<char>, ContractEdgeKind),
> {
    if !starts_with(callee, "prisma."@) {
        None
    } else {
        let rest = callee.skip("prisma."@.len() as int);
        match find(rest, seq!['.']) {
            None => None,
            Some(k) => {
                let op = rest.skip(k + 1);
                if find(op, seq!['.']) is Some {
                    None
                } else {
                    Some(
                        (
                            rest.take(k),
                            op,
                            if is_write_operation(op) {
                                ContractEdgeKind::Writes
                            } else {
                                ContractEdgeKind::Reads
                            },
                        ),
                    )
                }
            },
        }
    }
}

pub fn parse_prisma_call(callee: &str) -> (r: Option<(Vec<char>, Vec<char>, ContractEdgeKind)>)
    ensures
        r matches Some((m, o, a)) ==> parse_prisma_call_spec(callee@) == Some((m@, o@, a)),
        r is None ==> parse_prisma_call_spec(callee@) is None,
{
    let c = chars_of(callee);
    if !starts_with_str(&c, "prisma.") {
        return None;
    }
    let prefix = chars_of("prisma.");
    let rest = slice_of(&c, prefix.len(), c.len());
    assert(rest@ == callee@.skip("prisma."@.len() as int));
    let k = match find_char(&rest, '.') {
        Some(k) => k,
        None => return None,
    };
    proof {
        lemma_find_bounds(rest@, seq!['.'], 0);
    }
    let op = slice_of(&rest, k + 1, rest.len());
    assert(op@ == rest@.skip(k + 1));
    if find_char(&op, '.').is_some() {
        return None;
    }
    let model = slice_of(&rest, 0, k);
    assert(model@ == rest@.take(k as int));
    let write = is(&op, "create") || is(&op, "createMany") || is(&op, "update") || is(
        &op,
        "updateMany",
    ) || is(&op, "upsert") || is(&op, "delete") || is(&op, "deleteMany");
    let access = if write {
        ContractEdgeKind::Writes
    } else {
        ContractEdgeKind::Reads
    };
    Some((model, op, access))
}

/// Schemas that describe what an endpoint returns.
pub open spec fn is_response_schema_spec(name: Seq<char>) -> bool {
    contains(name, "Response"@) || ends_with(name, "Result"@)
}

pub fn is_response_schema(name: &Vec<char>) -> (r: bool)
    ensures
        r == is_response_schema_spec(name@),
{
    contains_str(name, "Response") || ends_with_str(name, "Result")
}

pub open spec fn schema_detail_spec(name: Seq<char>) -> Seq<char> {
    if is_response_schema_spec(name) {
        "Response contract"@
    } else if contains(name, "Query"@) {
        "Query contract"@
    } else if contains(name, "Params"@) {
        "Path parameter contract"@
    } else {
        "Request contract"@
    }
}

pub fn schema_detail(name: &Vec<char>) -> (r: Vec<char>)
    ensures
        r@ == schema_detail_spec(name@),
{
    if is_response_schema(name) {
        chars_of("Response contract")
    } else if contains_str(name, "Query") {
        chars_of("Query contract")
    } else if contains_str(name, "Params") {
        chars_of("Path parameter contract")
    } else {
        chars_of("Request contract")
    }
}

pub open spec fn middleware_detail_spec(name: Seq<char>) -> Seq<char> {
    if contains(name, "AdminAuth"@) {
        "Platform admin authorization"@
    } else if contains(name, "Auth"@) {
        "Authentication and session guard"@
    } else if contains(lower(name), "rate"@) {
        "Request rate limit"@
    } else {
        "Request middleware"@
    }
}

pub fn middleware_detail(name: &Vec<char>) -> (r: Vec<char>)
    ensures
        r@ == middleware_detail_spec(name@),
{
    if contains_str(name, "AdminAuth") {
        chars_of("Platform admin authorization")
    } else if contains_str(name, "Auth") {
        chars_of("Authentication and session guard")
    } else if contains_str(&lowered(name), "rate") {
        chars_of("Request rate limit")
    } else {
        chars_of("Request middleware")
    }
}

pub open spec fn symbol_detail_spec(kind: SymbolKind) -> Seq<char> {
    match kind {
        SymbolKind::Method => "Service method"@,
        SymbolKind::Function => "Internal helper"@,
        _ => "Code symbol"@,
    }
}

pub fn symbol_detail(kind: SymbolKind) -> (r: Vec<char>)
    ensures
        r@ == symbol_detail_spec(kind),
{
    match kind {
        SymbolKind::Method => chars_of("Service method"),
        SymbolKind::Function => chars_of("Internal helper"),
        _ => chars_of("Code symbol"),
    }
}

pub open spec fn database_detail_spec(model: Seq<char>, op: Seq<char>, access: ContractEdgeKind) -> Seq<
    char,
> {
    (if access == ContractEdgeKind::Writes {
        "Mutates"@
    } else {
        "Reads"@
    }) + " the "@ + title_case_spec(model) + " model via Prisma `"@ + op + "`"@
}

pub fn database_detail(model: &Vec<char>, op: &Vec<char>, access: ContractEdgeKind) -> (r: Vec<
    char,
>)
    ensures
        r@ == database_detail_spec(model@, op@, access),
{
    let mut r = if access == ContractEdgeKind::Writes {
        chars_of("Mutates")
    } else {
        chars_of("Reads")
    };
    append_str(&mut r, " the ");
    append(&mut r, &title_case(model));
    append_str(&mut r, " model via Prisma `");
    append(&mut r, op);
    append_str(&mut r, "`");
    r
}

// ---------------------------------------------------------------------------
// Query fingerprints
// ---------------------------------------------------------------------------

/// `s` from index `i` without white space outside quotes; `q` is the open
/// quote and `e` whether the last quoted character was a backslash.
pub open spec fn compact_from(s: Seq<char>, i: int, q: Option<char>, e: bool) -> Seq<char>
    decreases s.len() - i,
{
    if i < 0 || i >= s.len() {
        Seq::empty()
    } else {
        let c = s[i];
        match q {
            Some(active) => {
                seq![c] + if e {
                    compact_from(s, i + 1, q, false)
                } else if c == '\\' {
                    compact_from(s, i + 1, q, true)
                } else if c == active {
                    compact_from(s, i + 1, None, e)
                } else {
                    compact_from(s, i + 1, q, e)
                }
            },
            None => {
                if is_quote_char(c) {
                    seq![c] + compact_from(s, i + 1, Some(c), e)
                } else if !is_ws(c) {
                    seq![c] + compact_from(s, i + 1, q, e)
                } else {
                    compact_from(s, i + 1, q, e)
                }
            },
        }
    }
}

/// `s` from index `i` with every occurrence of `p`, left to right and not
/// overlapping, replaced by `r`: `str::replace`.
pub open spec fn replace_from(s: Seq<char>, p: Seq<char>, r: Seq<char>, i: int) -> Seq<char>
    decreases s.len() - i,
{
    if i < 0 || i >= s.len() || p.len() == 0 {
        s.subrange(if 0 <= i <= s.len() { i } else { s.len() as int }, s.len() as int)
    } else if i + p.len() <= s.len() && s.subrange(i, i + p.len()) == p {
        r + replace_from(s, p, r, i + p.len())
    } else {
        seq![s[i]] + replace_from(s, p, r, i + 1)
    }
}

/// A Prisma call expression with white space outside strings removed and
/// trailing commas before `}`, `]` and `)` dropped.
pub open spec fn normalize_spec(e: Seq<char>) -> Seq<char> {
    let compact = compact_from(e, 0, None, false);
    let a = replace_from(compact, ",}"@, "}"@, 0);
    let b = replace_from(a, ",]"@, "]"@, 0);
    replace_from(b, ",)"@, ")"@, 0)
}

fn replace_all(s: &Vec<char>, pattern: &str, with: &str) -> (r: Vec<char>)
    ensures
        r@ == replace_from(s@, pattern@, with@, 0),
{
    let p = chars_of(pattern);
    let w = chars_of(with);
    let mut r: Vec<char> = Vec::new();
    if p.len() == 0 {
        let all = slice_of(s, 0, s.len());
        return all;
    }
    let mut i: usize = 0;
    while i < s.len()
        invariant
            i <= s.len(),
            p@ == pattern@,
            w@ == with@,
            p.len() > 0,
            r@ + replace_from(s@, p@, w@, i as int) == replace_from(s@, p@, w@, 0),
        decreases s.len() - i,
    {
        if p.len() <= s.len() - i && occurs_at(s, &p, i) {
            let ghost before = r@;
            append(&mut r, &w);
            assert(before + (w@ + replace_from(s@, p@, w@, i + p.len())) == r@ + replace_from(
                s@,
                p@,
                w@,
                i + p.len(),
            ));
            i = i + p.len();
        } else {
            let ghost before = r@;
            r.push(s[i]);
            assert(before + (seq![s@[i as int]] + replace_from(s@, p@, w@, i + 1)) == r@
                + replace_from(s@, p@, w@, i + 1));
            i = i + 1;
        }
    }
    assert(replace_from(s@, p@, w@, i as int) =~= Seq::<char>::empty());
    assert(r@ + Seq::<char>::empty() == r@);
    r
}

/// The expression without white space outside strings and without trailing
/// commas, so that equal queries written differently compare equal.
pub fn normalize_query_expression(expression: &Vec<char>) -> (r: Vec<char>)
    ensures
        r@ == normalize_spec(expression@),
{
    let s = expression;
    let mut out: Vec<char> = Vec::new();
    let mut q: Option<char> = None;
    let mut e: bool = false;
    let mut i: usize = 0;
    while i < s.len()
        invariant
            i <= s.len(),
            out@ + compact_from(s@, i as int, q, e) == compact_from(s@, 0, None, false),
        decreases s.len() - i,
    {
        let c = s[i];
        let ghost before = out@;
        match q {
            Some(active) => {
                out.push(c);
                if e {
                    e = false;
                } else if c == '\\' {
                    e = true;
                } else if c == active {
                    q = None;
                }
                assert(before + (seq![c] + compact_from(s@, i + 1, q, e)) == out@ + compact_from(
                    s@,
                    i + 1,
                    q,
                    e,
                ));
            },
            None => {
                if c == '\'' || c == '"' || c == '`' {
                    q = Some(c);
                    out.push(c);
                    assert(before + (seq![c] + compact_from(s@, i + 1, q, e)) == out@
                        + compact_from(s@, i + 1, q, e));
                } else if !is_whitespace(c) {
                    out.push(c);
                    assert(before + (seq![c] + compact_from(s@, i + 1, q, e)) == out@
                        + compact_from(s@, i + 1, q, e));
                }
            },
        }
        i += 1;
    }
    assert(compact_from(s@, i as int, q, e) =~= Seq::<char>::empty());
    assert(out@ + Seq::<char>::empty() == out@);
    let a = replace_all(&out, ",}", "}");
    let b = replace_all(&a, ",]", "]");
    replace_all(&b, ",)", ")")
}

/// `prisma:` and the BLAKE3 digest of the normalized expression's UTF-8 bytes.
pub open spec fn fingerprint_spec(e: Seq<char>) -> Seq<char> {
    "prisma:"@ + blake3_hex(vstd::utf8::encode_utf8(normalize_spec(e)))
}

// ---------------------------------------------------------------------------
// Symbol indexes
// ---------------------------------------------------------------------------

/// Where a symbol is declared.
pub struct SymbolLocation {
    pub file_path: String,
    pub span: SourceSpan,
    pub kind: SymbolKind,
}

pub struct LocView {
    pub file_path: Seq<char>,
    pub span: SourceSpan,
    pub kind: SymbolKind,
}

impl View for SymbolLocation {
    type V = LocView;

    open spec fn view(&self) -> LocView {
        LocView { file_path: self.file_path@, span: self.span, kind: self.kind }
    }
}

/// Symbols by name, in the order of declaration; a name may repeat.
pub struct SymbolIndex {
    pub entries: Vec<(Vec<char>, SymbolLocation)>,
}

impl View for SymbolIndex {
    type V = Seq<(Seq<char>, LocView)>;

    open spec fn view(&self) -> Seq<(Seq<char>, LocView)> {
        self.entries@.map_values(|e: (Vec<char>, SymbolLocation)| (e.0@, e.1@))
    }
}

pub open spec fn location_of(f: FileAnalysis, s: SymbolFact) -> LocView {
    LocView { file_path: f.path@, span: s.span, kind: s.kind }
}

/// The (name, location) pairs of the first `n` symbols of `f`.
pub open spec fn file_entries(f: FileAnalysis, n: int) -> Seq<(Seq<char>, LocView)>
    decreases n,
{
    if n <= 0 || n > f.symbols@.len() {
        Seq::empty()
    } else {
        file_entries(f, n - 1).push((f.symbols@[n - 1].name@, location_of(f, f.symbols@[n - 1])))
    }
}

/// The (lower-cased name, location) pairs of the Prisma models among the
/// first `n` symbols of `f`.
pub open spec fn model_file_entries(f: FileAnalysis, n: int) -> Seq<(Seq<char>, LocView)>
    decreases n,
{
    if n <= 0 || n > f.symbols@.len() {
        Seq::empty()
    } else if f.symbols@[n - 1].kind == SymbolKind::PrismaModel {
        model_file_entries(f, n - 1).push(
            (lower(f.symbols@[n - 1].name@), location_of(f, f.symbols@[n - 1])),
        )
    } else {
        model_file_entries(f, n - 1)
    }
}

/// Every symbol of `files`, file by file, in declaration order.
pub open spec fn symbol_entries(files: Seq<FileAnalysis>) -> Seq<(Seq<char>, LocView)>
    decreases files.len(),
{
    if files.len() == 0 {
        Seq::empty()
    } else {
        symbol_entries(files.drop_last()) + file_entries(files.last(), files.last().symbols@.len() as int)
    }
}

/// Every Prisma model of `files`, by lower-cased name.
pub open spec fn model_entries(files: Seq<FileAnalysis>) -> Seq<(Seq<char>, LocView)>
    decreases files.len(),
{
    if files.len() == 0 {
        Seq::empty()
    } else {
        model_entries(files.drop_last()) + model_file_entries(
            files.last(),
            files.last().symbols@.len() as int,
        )
    }
}

/// The location first given for `key`: a map filled with `entry().or_insert`.
pub open spec fn lookup_first(entries: Seq<(Seq<char>, LocView)>, key: Seq<char>) -> Option<LocView>
    decreases entries.len(),
{
    if entries.len() == 0 {
        None
    } else {
        match lookup_first(entries.drop_last(), key) {
            Some(l) => Some(l),
            None => if entries.last().0 == key {
                Some(entries.last().1)
            } else {
                None
            },
        }
    }
}

/// The location last given for `key`: a map filled with `insert`.
pub open spec fn lookup_last(entries: Seq<(Seq<char>, LocView)>, key: Seq<char>) -> Option<LocView>
    decreases entries.len(),
{
    if entries.len() == 0 {
        None
    } else if entries.last().0 == key {
        Some(entries.last().1)
    } else {
        lookup_last(entries.drop_last(), key)
    }
}

fn push_entry(index: &mut SymbolIndex, key: Vec<char>, loc: SymbolLocation)
    ensures
        final(index)@ == old(index)@.push((key@, loc@)),
{
    let ghost before = index@;
    index.entries.push((key, loc));
    assert(index@ =~= before.push((key@, loc@)));
}

/// Every symbol of `files` by name; a lookup finds the first declaration.
pub fn index_symbols(files: &[FileAnalysis]) -> (r: SymbolIndex)
    ensures
        r@ == symbol_entries(files@),
{
    let mut index = SymbolIndex { entries: Vec::new() };
    assert(index@ =~= Seq::<(Seq<char>, LocView)>::empty());
    let mut i: usize = 0;
    while i < files.len()
        invariant
            i <= files.len(),
            index@ == symbol_entries(files@.take(i as int)),
        decreases files.len() - i,
    {
        let file = &files[i];
        assert(files@.take(i + 1).drop_last() == files@.take(i as int));
        let ghost base = index@;
        let mut j: usize = 0;
        while j < file.symbols.len()
            invariant
                j <= file.symbols.len(),
                index@ == base + file_entries(*file, j as int),
            decreases file.symbols.len() - j,
        {
            let symbol = &file.symbols[j];
            let loc = SymbolLocation {
                file_path: file.path.clone(),
                span: symbol.span,
                kind: symbol.kind,
            };
            push_entry(&mut index, chars_of(symbol.name.as_str()), loc);
            j += 1;
        }
        i += 1;
    }
    assert(files@.take(files.len() as int) == files@);
    index
}

/// Every Prisma model of `files` by lower-cased name; a lookup finds the
/// last declaration.
pub fn index_prisma_models(files: &[FileAnalysis]) -> (r: SymbolIndex)
    ensures
        r@ == model_entries(files@),
{
    let mut index = SymbolIndex { entries: Vec::new() };
    assert(index@ =~= Seq::<(Seq<char>, LocView)>::empty());
    let mut i: usize = 0;
    while i < files.len()
        invariant
            i <= files.len(),
            index@ == model_entries(files@.take(i as int)),
        decreases files.len() - i,
    {
        let file = &files[i];
        assert(files@.take(i + 1).drop_last() == files@.take(i as int));
        let ghost base = index@;
        let mut j: usize = 0;
        while j < file.symbols.len()
            invariant
                j <= file.symbols.len(),
                index@ == base + model_file_entries(*file, j as int),
            decreases file.symbols.len() - j,
        {
            let symbol = &file.symbols[j];
            if symbol.kind == SymbolKind::PrismaModel {
                let loc = SymbolLocation {
                    file_path: file.path.clone(),
                    span: symbol.span,
                    kind: symbol.kind,
                };
                push_entry(&mut index, lowered(&chars_of(symbol.name.as_str())), loc);
            }
            j += 1;
        }
        i += 1;
    }
    assert(files@.take(files.len() as int) == files@);
    index
}

pub open spec fn opt_loc(o: Option<&SymbolLocation>) -> Option<LocView> {
    match o {
        Some(l) => Some(l@),
        None => None,
    }
}

/// The first location recorded for `key`.
pub fn get_first<'a>(index: &'a SymbolIndex, key: &Vec<char>) -> (r: Option<&'a SymbolLocation>)
    ensures
        opt_loc(r) == lookup_first(index@, key@),
{
    let ghost v = index@;
    let mut i: usize = 0;
    while i < index.entries.len()
        invariant
            i <= index.entries.len(),
            v == index@,
            lookup_first(v.take(i as int), key@) is None,
        decreases index.entries.len() - i,
    {
        assert(v.take(i + 1).drop_last() == v.take(i as int));
        if same(&index.entries[i].0, key) {
            proof {
                lemma_lookup_first_prefix(v, key@, i + 1);
            }
            return Some(&index.entries[i].1);
        }
        i += 1;
    }
    assert(v.take(index.entries.len() as int) == v);
    None
}

proof fn lemma_lookup_first_prefix(v: Seq<(Seq<char>, LocView)>, key: Seq<char>, n: int)
    requires
        0 < n <= v.len(),
        lookup_first(v.take(n - 1), key) is None,
        v[n - 1].0 == key,
    ensures
        lookup_first(v, key) == Some(v[n - 1].1),
    decreases v.len() - n,
{
    assert(v.take(n).drop_last() == v.take(n - 1));
    if n < v.len() {
        lemma_lookup_first_extend(v, key, n);
    } else {
        assert(v.take(n) == v);
    }
}

proof fn lemma_lookup_first_extend(v: Seq<(Seq<char>, LocView)>, key: Seq<char>, n: int)
    requires
        0 < n <= v.len(),
        lookup_first(v.take(n), key) is Some,
    ensures
        lookup_first(v, key) == lookup_first(v.take(n), key),
    decreases v.len() - n,
{
    if n < v.len() {
        assert(v.take(n + 1).drop_last() == v.take(n));
        lemma_lookup_first_extend(v, key, n + 1);
    } else {
        assert(v.take(n) == v);
    }
}

/// The last location recorded for `key`.
pub fn get_last<'a>(index: &'a SymbolIndex, key: &Vec<char>) -> (r: Option<&'a SymbolLocation>)
    ensures
        opt_loc(r) == lookup_last(index@, key@),
{
    let ghost v = index@;
    let mut i: usize = index.entries.len();
    assert(v.take(i as int) == v);
    while i > 0
        invariant
            i <= index.entries.len(),
            v == index@,
            lookup_last(v, key@) == lookup_last(v.take(i as int), key@),
        decreases i,
    {
        assert(v.take(i as int).drop_last() == v.take(i - 1));
        if same(&index.entries[i - 1].0, key) {
            return Some(&index.entries[i - 1].1);
        }
        i -= 1;
    }
    None
}

// ---------------------------------------------------------------------------
// Contract graphs
// ---------------------------------------------------------------------------

/// The most nodes that a contract grows to before expansion stops.
pub const MAX_CONTRACT_NODES: usize = 80;

/// The most calls of one symbol that expansion follows.
pub const MAX_CALLS_PER_SYMBOL: usize = 32;

/// The deepest level to which called symbols are expanded.
pub const MAX_EXPANSION_DEPTH: usize = 2;

/// A contract graph as the specifications read it: each node with the key
/// that it was added under.
#[verifier::ext_equal]
pub struct GraphView {
    pub contract_id: Seq<char>,
    pub nodes: Seq<NodeView>,
    pub keys: Seq<Seq<char>>,
    pub edges: Seq<EdgeView>,
}

pub open spec fn empty_graph(contract_id: Seq<char>) -> GraphView {
    GraphView { contract_id, nodes: Seq::empty(), keys: Seq::empty(), edges: Seq::empty() }
}

/// The id of the `n`-th node of a contract.
pub open spec fn node_id(contract_id: Seq<char>, n: nat) -> Seq<char> {
    contract_id + ":node:"@ + decimal(n)
}

/// The id of the `n`-th edge of a contract.
pub open spec fn edge_id(contract_id: Seq<char>, n: nat) -> Seq<char> {
    contract_id + ":edge:"@ + decimal(n)
}

/// The first index at or after `i` of `key` in `keys`.
pub open spec fn key_index_from(keys: Seq<Seq<char>>, key: Seq<char>, i: int) -> Option<int>
    decreases keys.len() - i,
{
    if i < 0 || i >= keys.len() {
        None
    } else if keys[i] == key {
        Some(i)
    } else {
        key_index_from(keys, key, i + 1)
    }
}

/// The first index at or after `i` of a node with id `id`.
pub open spec fn id_index_from(nodes: Seq<NodeView>, id: Seq<char>, i: int) -> Option<int>
    decreases nodes.len() - i,
{
    if i < 0 || i >= nodes.len() {
        None
    } else if nodes[i].id == id {
        Some(i)
    } else {
        id_index_from(nodes, id, i + 1)
    }
}

/// Adds a node under `key`, or finds the one already added under it; gives
/// the node's id.
pub open spec fn add_node_spec(
    g: GraphView,
    key: Seq<char>,
    label: Seq<char>,
    detail: Seq<char>,
    kind: ContractNodeKind,
    file_path: Option<Seq<char>>,
    span: Option<SourceSpan>,
) -> (GraphView, Seq<char>) {
    match key_index_from(g.keys, key, 0) {
        Some(i) => (g, g.nodes[i].id),
        None => {
            let id = node_id(g.contract_id, g.nodes.len());
            (
                GraphView {
                    contract_id: g.contract_id,
                    nodes: g.nodes.push(
                        NodeView {
                            id: id,
                            label: label,
                            detail: detail,
                            kind: kind,
                            file_path: file_path,
                            span: span,
                            order: g.nodes.len() as usize,
                            data_access: None,
                        },
                    ),
                    keys: g.keys.push(key),
                    edges: g.edges,
                },
                id,
            )
        },
    }
}

pub open spec fn has_edge(
    edges: Seq<EdgeView>,
    source: Seq<char>,
    target: Seq<char>,
    kind: ContractEdgeKind,
) -> bool {
    exists|i: int|
        0 <= i < edges.len() && #[trigger] edges[i].source == source && edges[i].target == target
            && edges[i].kind == kind
}

/// Adds an edge unless it is a loop or one of its kind joins the same nodes.
pub open spec fn add_edge_spec(
    g: GraphView,
    source: Seq<char>,
    target: Seq<char>,
    kind: ContractEdgeKind,
    label: Seq<char>,
) -> GraphView {
    if source == target || has_edge(g.edges, source, target, kind) {
        g
    } else {
        GraphView {
            contract_id: g.contract_id,
            nodes: g.nodes,
            keys: g.keys,
            edges: g.edges.push(
                EdgeView {
                    id: edge_id(g.contract_id, g.edges.len()),
                    source: source,
                    target: target,
                    kind: kind,
                    label: label,
                },
            ),
        }
    }
}

/// Records `data` on the first node with id `id`.
pub open spec fn attach_spec(g: GraphView, id: Seq<char>, data: DataAccessView) -> GraphView {
    match id_index_from(g.nodes, id, 0) {
        None => g,
        Some(i) => GraphView {
            contract_id: g.contract_id,
            nodes: g.nodes.update(
                i,
                NodeView {
                    id: g.nodes[i].id,
                    label: g.nodes[i].label,
                    detail: g.nodes[i].detail,
                    kind: g.nodes[i].kind,
                    file_path: g.nodes[i].file_path,
                    span: g.nodes[i].span,
                    order: g.nodes[i].order,
                    data_access: Some(data),
                },
            ),
            keys: g.keys,
            edges: g.edges,
        },
    }
}

pub open spec fn is_full_spec(g: GraphView) -> bool {
    g.nodes.len() >= MAX_CONTRACT_NODES
}

pub open spec fn node_views(nodes: Seq<ContractNode>) -> Seq<NodeView> {
    nodes.map_values(|n: ContractNode| n@)
}

pub open spec fn edge_views(edges: Seq<ContractEdge>) -> Seq<EdgeView> {
    edges.map_values(|e: ContractEdge| e@)
}

/// A contract graph under construction.
pub struct ContractGraph {
    pub contract_id: Vec<char>,
    pub nodes: Vec<ContractNode>,
    pub node_keys: Vec<Vec<char>>,
    pub node_ids: Vec<Vec<char>>,
    pub edges: Vec<ContractEdge>,
    pub edge_ends: Vec<(Vec<char>, Vec<char>, ContractEdgeKind)>,
}

impl View for ContractGraph {
    type V = GraphView;

    open spec fn view(&self) -> GraphView {
        GraphView {
            contract_id: self.contract_id@,
            nodes: node_views(self.nodes@),
            keys: self.node_keys.deep_view(),
            edges: edge_views(self.edges@),
        }
    }
}

impl ContractGraph {
    /// The parallel vectors agree with the nodes and edges.
    pub open spec fn wf(&self) -> bool {
        &&& self.node_keys@.len() == self.nodes@.len()
        &&& self.node_ids@.len() == self.nodes@.len()
        &&& forall|i: int|
            0 <= i < self.nodes@.len() ==> #[trigger] self.node_ids@[i]@ == self.nodes@[i].id@
        &&& self.edge_ends@.len() == self.edges@.len()
        &&& forall|i: int|
            0 <= i < self.edges@.len() ==> (#[trigger] self.edge_ends@[i]).0@
                == self.edges@[i].source@ && self.edge_ends@[i].1@ == self.edges@[i].target@
                && self.edge_ends@[i].2 == self.edges@[i].kind
    }

    pub fn new(contract_id: Vec<char>) -> (g: ContractGraph)
        ensures
            g.wf(),
            g@ == empty_graph(contract_id@),
    {
        let g = ContractGraph {
            contract_id,
            nodes: Vec::new(),
            node_keys: Vec::new(),
            node_ids: Vec::new(),
            edges: Vec::new(),
            edge_ends: Vec::new(),
        };
        assert(g@.nodes =~= Seq::<NodeView>::empty());
        assert(g@.keys =~= Seq::<Seq<char>>::empty());
        assert(g@.edges =~= Seq::<EdgeView>::empty());
        g
    }

    pub fn is_full(&self) -> (r: bool)
        ensures
            r == is_full_spec(self@),
    {
        self.nodes.len() >= MAX_CONTRACT_NODES
    }

    /// Adds a node under `key` unless one was added under it; returns the
    /// node's id.
    pub fn add_node(
        &mut self,
        key: &Vec<char>,
        label: Vec<char>,
        detail: Vec<char>,
        kind: ContractNodeKind,
        file_path: Option<String>,
        span: Option<SourceSpan>,
    ) -> (id: Vec<char>)
        requires
            old(self).wf(),
        ensures
            final(self).wf(),
            (final(self)@, id@) == add_node_spec(
                old(self)@,
                key@,
                label@,
                detail@,
                kind,
                opt_str(file_path),
                span,
            ),
    {
        let ghost g0 = self@;
        let mut i: usize = 0;
        while i < self.node_keys.len()
            invariant
                self.wf(),
                self@ == g0,
                i <= self.node_keys.len(),
                key_index_from(g0.keys, key@, 0) == key_index_from(g0.keys, key@, i as int),
            decreases self.node_keys.len() - i,
        {
            assert(g0.keys[i as int] == self.node_keys[i as int]@);
            if same(&self.node_keys[i], key) {
                let id = slice_of(&self.node_ids[i], 0, self.node_ids[i].len());
                assert(id@ =~= self.node_ids@[i as int]@);
                return id;
            }
            i += 1;
        }
        let n = self.nodes.len();
        let mut id = slice_of(&self.contract_id, 0, self.contract_id.len());
        append_str(&mut id, ":node:");
        append(&mut id, &decimal_of(n as u64));
        let node = ContractNode {
            id: string_of(&id),
            label: string_of(&label),
            detail: string_of(&detail),
            kind,
            file_path,
            span,
            order: n,
            data_access: None,
        };
        let ghost nv = node@;
        assert(id@ =~= node_id(g0.contract_id, n as nat));
        let key_copy = slice_of(key, 0, key.len());
        assert(key_copy@ =~= key@);
        let id_copy = slice_of(&id, 0, id.len());
        assert(id_copy@ =~= id@);
        self.nodes.push(node);
        self.node_keys.push(key_copy);
        self.node_ids.push(id_copy);
        assert(self@.nodes =~= g0.nodes.push(nv));
        assert(self@.keys =~= g0.keys.push(key@));
        assert(key_index_from(g0.keys, key@, 0) is None);
        assert(self@ =~= add_node_spec(g0, key@, label@, detail@, kind, opt_str(file_path), span).0);
        assert(self.wf()) by {
            assert forall|j: int| 0 <= j < self.nodes@.len() implies #[trigger] self.node_ids@[j]@
                == self.nodes@[j].id@ by {
                if j == n {
                } else {
                }
            }
        }
        id
    }

    /// Adds an edge unless it would be a loop or repeat one of its kind.
    pub fn add_edge(
        &mut self,
        source: &Vec<char>,
        target: &Vec<char>,
        kind: ContractEdgeKind,
        label: &str,
    )
        requires
            old(self).wf(),
        ensures
            final(self).wf(),
            final(self)@ == add_edge_spec(old(self)@, source@, target@, kind, label@),
    {
        let ghost g0 = self@;
        if same(source, target) {
            assert(self@ =~= add_edge_spec(g0, source@, target@, kind, label@));
            return;
        }
        let mut i: usize = 0;
        while i < self.edge_ends.len()
            invariant
                self.wf(),
                self@ == g0,
                i <= self.edge_ends.len(),
                forall|j: int|
                    0 <= j < i ==> !(g0.edges[j].source == source@ && g0.edges[j].target
                        == target@ && g0.edges[j].kind == kind),
            decreases self.edge_ends.len() - i,
        {
            if same(&self.edge_ends[i].0, source) && same(&self.edge_ends[i].1, target)
                && self.edge_ends[i].2 == kind {
                assert(g0.edges[i as int].source == source@);
                assert(self@ =~= add_edge_spec(g0, source@, target@, kind, label@));
                return;
            }
            i += 1;
        }
        assert(!has_edge(g0.edges, source@, target@, kind));
        let n = self.edges.len();
        let mut id = slice_of(&self.contract_id, 0, self.contract_id.len());
        append_str(&mut id, ":edge:");
        append(&mut id, &decimal_of(n as u64));
        let edge = ContractEdge {
            id: string_of(&id),
            source: string_of(source),
            target: string_of(target),
            kind,
            label: string_of(&chars_of(label)),
        };
        let ghost ev = edge@;
        assert(id@ =~= edge_id(g0.contract_id, n as nat));
        let s_copy = slice_of(source, 0, source.len());
        let t_copy = slice_of(target, 0, target.len());
        assert(s_copy@ =~= source@);
        assert(t_copy@ =~= target@);
        self.edges.push(edge);
        self.edge_ends.push((s_copy, t_copy, kind));
        assert(self@.edges =~= g0.edges.push(ev));
        assert(self@ =~= add_edge_spec(g0, source@, target@, kind, label@));
    }

    /// Records `data` on the first node with id `node_id`.
    pub fn attach_data_access(&mut self, node_id: &Vec<char>, data: DataAccessFact)
        requires
            old(self).wf(),
        ensures
            final(self).wf(),
            final(self)@ == attach_spec(old(self)@, node_id@, data@),
    {
        let ghost g0 = self@;
        let mut i: usize = 0;
        while i < self.node_ids.len() && !same(&self.node_ids[i], node_id)
            invariant
                self.wf(),
                self@ == g0,
                i <= self.node_ids.len(),
                id_index_from(g0.nodes, node_id@, 0) == id_index_from(g0.nodes, node_id@, i as int),
            decreases self.node_ids.len() - i,
        {
            assert(g0.nodes[i as int].id == self.node_ids@[i as int]@);
            i += 1;
        }
        let found = i < self.node_ids.len();
        if found {
            assert(g0.nodes[i as int].id == self.node_ids@[i as int]@);
            let mut node = self.nodes.remove(i);
            node.data_access = Some(data);
            let ghost nv = node@;
            self.nodes.insert(i, node);
            assert(self@.nodes =~= g0.nodes.update(i as int, nv));
            assert(self@ =~= attach_spec(g0, node_id@, data@));
        }
    }
}

// ---------------------------------------------------------------------------
// Database relations
// ---------------------------------------------------------------------------

pub open spec fn sql_view_of(o: Option<(Seq<char>, Seq<Seq<char>>)>) -> Option<SqlView> {
    match o {
        Some((statement, limitations)) => Some(SqlView { statement, limitations }),
        None => None,
    }
}

/// What is recorded of one Prisma operation.
pub open spec fn data_access_spec(
    model: Seq<char>,
    op: Seq<char>,
    access: ContractEdgeKind,
    expression: Seq<char>,
) -> DataAccessView {
    DataAccessView {
        model: model,
        operation: op,
        access: if access == ContractEdgeKind::Writes {
            DataAccessKind::Write
        } else {
            DataAccessKind::Read
        },
        fingerprint: fingerprint_spec(expression),
        shape_fingerprint: lower(model) + ":"@ + lower(op),
        expression: expression,
        interpreted_sql: sql_view_of(interpret_spec(model, op, expression)),
    }
}

/// The node, data access and edges that one Prisma call adds under `parent`,
/// with its model's schema node when the model is declared.
pub open spec fn db_relation_spec(
    g: GraphView,
    parent: Seq<char>,
    file_path: Seq<char>,
    call: CallFact,
    model: Seq<char>,
    op: Seq<char>,
    access: ContractEdgeKind,
    models: Seq<(Seq<char>, LocView)>,
) -> GraphView {
    let key = "database:"@ + file_path + ":"@ + model + ":"@ + op + ":"@ + decimal(
        call.span.start as nat,
    );
    let (g1, db) = add_node_spec(
        g,
        key,
        model + "."@ + op,
        database_detail_spec(model, op, access),
        ContractNodeKind::Database,
        Some(file_path),
        Some(call.span),
    );
    let g2 = attach_spec(g1, db, data_access_spec(model, op, access, call.expression@));
    let g3 = add_edge_spec(
        g2,
        parent,
        db,
        access,
        if access == ContractEdgeKind::Writes {
            "writes"@
        } else {
            "reads"@
        },
    );
    match lookup_last(models, lower(model)) {
        None => g3,
        Some(loc) => {
            let (g4, model_id) = add_node_spec(
                g3,
                "prisma-model:"@ + model,
                title_case_spec(model) + " model"@,
                "Prisma data model"@,
                ContractNodeKind::Schema,
                Some(loc.file_path),
                Some(loc.span),
            );
            add_edge_spec(g4, db, model_id, ContractEdgeKind::UsesSchema, "model"@)
        },
    }
}

/// `prisma:` and the digest of the normalized expression: 71 characters,
/// the last 64 of them lowercase hexadecimal digits.
pub fn exact_query_fingerprint(expression: &Vec<char>) -> (r: Vec<char>)
    ensures
        r@ == fingerprint_spec(expression@),
        r@.len() == 71,
        r@.take(7) == "prisma:"@,
        forall|i: int| 7 <= i < r@.len() ==> is_lower_hex_digit(#[trigger] r@[i]),
{
    let normalized = string_of(&normalize_query_expression(expression));
    let digest = blake3_hex_of(normalized.as_str().as_bytes());
    let mut r = chars_of("prisma:");
    proof {
        reveal_strlit("prisma:");
    }
    let ghost head = r@;
    append(&mut r, &chars_of(digest.as_str()));
    assert(r@.take(7) =~= head);
    assert forall|i: int| 7 <= i < r@.len() implies is_lower_hex_digit(#[trigger] r@[i]) by {
        assert(r@[i] == digest@[i - 7]);
    }
    r
}

proof fn lemma_first_dot(s: Seq<char>, k: int, i: int)
    requires
        0 <= i <= k < s.len(),
        s[k] == '.',
        forall|j: int| i <= j < k ==> s[j] != '.',
    ensures
        find_from(s, seq!['.'], i) == Some(k),
    decreases k - i,
{
    if i < k {
        assert(s.subrange(i, i + 1)[0] == s[i]);
        lemma_first_dot(s, k, i + 1);
    } else {
        assert(s.subrange(k, k + 1) =~= seq!['.']);
    }
}

/// A Prisma call `prisma.<model>.<operation>` is taken apart into its model
/// and its operation. It writes when the operation is `create`,
/// `createMany`, `update`, `updateMany`, `upsert`, `delete` or
/// `deleteMany`, and reads for every other operation.
pub proof fn lemma_prisma_call_parts(model: Seq<char>, op: Seq<char>)
    requires
        !model.contains('.'),
        !op.contains('.'),
    ensures
        parse_prisma_call_spec("prisma."@ + model + seq!['.'] + op) == Some(
            (
                model,
                op,
                if op == "create"@ || op == "createMany"@ || op == "update"@ || op
                    == "updateMany"@ || op == "upsert"@ || op == "delete"@ || op
                    == "deleteMany"@ {
                    ContractEdgeKind::Writes
                } else {
                    ContractEdgeKind::Reads
                },
            ),
        ),
{
    reveal_strlit("prisma.");
    let callee = "prisma."@ + model + seq!['.'] + op;
    assert("prisma."@.is_prefix_of(callee));
    let rest = callee.skip("prisma."@.len() as int);
    assert(rest =~= model + seq!['.'] + op);
    assert forall|j: int| 0 <= j < model.len() implies rest[j] != '.' by {
        assert(rest[j] == model[j]);
        if rest[j] == '.' {
            assert(model.contains('.'));
        }
    }
    lemma_first_dot(rest, model.len() as int, 0);
    assert(rest.take(model.len() as int) =~= model);
    assert(rest.skip(model.len() + 1 as int) =~= op);
    lemma_find_bounds(op, seq!['.'], 0);
    if let Some(k) = find(op, seq!['.']) {
        assert(op.subrange(k, k + 1)[0] == op[k]);
        assert(op.contains('.'));
    }
}

/// A schema that a route refers to is a response schema when its name
/// contains `Response` or ends with `Result`: its node reads "Response
/// contract" and the endpoint returns it. Any other schema validates the
/// endpoint, and its node reads "Query contract", "Path parameter
/// contract" or "Request contract" as its name says.
pub proof fn lemma_schema_roles(
    g: GraphView,
    endpoint: Seq<char>,
    name: Seq<char>,
    sym: Seq<(Seq<char>, LocView)>,
)
    requires
        lookup_first(sym, name) matches Some(loc) && loc.kind == SymbolKind::Schema,
    ensures
        ({
            let loc = lookup_first(sym, name).unwrap();
            let response = contains(name, "Response"@) || ends_with(name, "Result"@);
            let detail = if response {
                "Response contract"@
            } else if contains(name, "Query"@) {
                "Query contract"@
            } else if contains(name, "Params"@) {
                "Path parameter contract"@
            } else {
                "Request contract"@
            };
            let (g1, id) = add_node_spec(
                g,
                "schema:"@ + name,
                name,
                detail,
                ContractNodeKind::Schema,
                Some(loc.file_path),
                Some(loc.span),
            );
            schema_steps(g, endpoint, seq![name], sym, 0) == if response {
                add_edge_spec(g1, endpoint, id, ContractEdgeKind::Returns, "returns"@)
            } else {
                add_edge_spec(g1, id, endpoint, ContractEdgeKind::UsesSchema, "validates"@)
            }
        }),
{
    reveal_with_fuel(schema_steps, 2);
}

/// Expressions with the same normal form have the same fingerprint.
pub proof fn lemma_fingerprint_by_normal_form(a: Seq<char>, b: Seq<char>)
    requires
        normalize_spec(a) == normalize_spec(b),
    ensures
        fingerprint_spec(a) == fingerprint_spec(b),
{
}

fn copy_string(s: &String) -> (r: String)
    ensures
        r@ == s@,
{
    s.clone()
}

fn copy_opt_string(s: &Option<String>) -> (r: Option<String>)
    ensures
        opt_str(r) == opt_str(*s),
{
    match s {
        Some(x) => Some(x.clone()),
        None => None,
    }
}

/// Adds the database node of one Prisma call, its data access, the edge
/// from `parent`, and its model's schema node.
pub fn add_database_relation(
    parent: &Vec<char>,
    file_path: &String,
    call: &CallFact,
    model: &Vec<char>,
    operation: &Vec<char>,
    access: ContractEdgeKind,
    prisma_models: &SymbolIndex,
    graph: &mut ContractGraph,
)
    requires
        old(graph).wf(),
    ensures
        final(graph).wf(),
        final(graph)@ == db_relation_spec(
            old(graph)@,
            parent@,
            file_path@,
            *call,
            model@,
            operation@,
            access,
            prisma_models@,
        ),
{
    let path = chars_of(file_path.as_str());
    let mut key = chars_of("database:");
    append(&mut key, &path);
    append_str(&mut key, ":");
    append(&mut key, model);
    append_str(&mut key, ":");
    append(&mut key, operation);
    append_str(&mut key, ":");
    append(&mut key, &decimal_of(call.span.start as u64));
    let mut label = slice_of(model, 0, model.len());
    append_str(&mut label, ".");
    append(&mut label, operation);
    assert(label@ =~= model@ + "."@ + operation@);
    let db_id = graph.add_node(
        &key,
        label,
        database_detail(model, operation, access),
        ContractNodeKind::Database,
        Some(copy_string(file_path)),
        Some(call.span),
    );
    let expression = chars_of(call.expression.as_str());
    let mut shape = lowered(model);
    append_str(&mut shape, ":");
    append(&mut shape, &lowered(operation));
    let model_text = string_of(model);
    let operation_text = string_of(operation);
    let data = DataAccessFact {
        model: string_of(model),
        operation: string_of(operation),
        access: if access == ContractEdgeKind::Writes {
            DataAccessKind::Write
        } else {
            DataAccessKind::Read
        },
        fingerprint: string_of(&exact_query_fingerprint(&expression)),
        shape_fingerprint: string_of(&shape),
        expression: copy_string(&call.expression),
        interpreted_sql: interpret_prisma_call(
            model_text.as_str(),
            operation_text.as_str(),
            call.expression.as_str(),
        ),
    };
    assert(data@ == data_access_spec(model@, operation@, access, call.expression@));
    graph.attach_data_access(&db_id, data);
    graph.add_edge(
        parent,
        &db_id,
        access,
        if access == ContractEdgeKind::Writes {
            "writes"
        } else {
            "reads"
        },
    );
    match get_last(prisma_models, &lowered(model)) {
        None => {},
        Some(location) => {
            let mut model_key = chars_of("prisma-model:");
            append(&mut model_key, model);
            let mut model_label = title_case(model);
            append_str(&mut model_label, " model");
            let model_id = graph.add_node(
                &model_key,
                model_label,
                chars_of("Prisma data model"),
                ContractNodeKind::Schema,
                Some(copy_string(&location.file_path)),
                Some(location.span),
            );
            graph.add_edge(&db_id, &model_id, ContractEdgeKind::UsesSchema, "model");
        },
    }
}

// ---------------------------------------------------------------------------
// Calls
// ---------------------------------------------------------------------------

/// Calls are ordered by where they start.
pub open spec fn start_lt(a: CallFact, b: CallFact) -> bool {
    a.span.start < b.span.start
}

/// Whether `callee` names a declared function or method.
pub open spec fn is_callable(entries: Seq<(Seq<char>, LocView)>, callee: Seq<char>) -> bool {
    match lookup_first(entries, callee) {
        Some(l) => l.kind == SymbolKind::Method || l.kind == SymbolKind::Function,
        None => false,
    }
}

pub open spec fn callable_calls(calls: Seq<CallFact>, entries: Seq<(Seq<char>, LocView)>) -> Seq<
    CallFact,
>
    decreases calls.len(),
{
    if calls.len() == 0 {
        Seq::empty()
    } else if is_callable(entries, calls.last().callee@) {
        callable_calls(calls.drop_last(), entries).push(calls.last())
    } else {
        callable_calls(calls.drop_last(), entries)
    }
}

/// `dedup_by` on the callee: runs of calls to the same callee keep their first.
pub open spec fn dedup_callees(calls: Seq<CallFact>) -> Seq<CallFact>
    decreases calls.len(),
{
    if calls.len() == 0 {
        Seq::empty()
    } else {
        let d = dedup_callees(calls.drop_last());
        if d.len() > 0 && d.last().callee@ == calls.last().callee@ {
            d
        } else {
            d.push(calls.last())
        }
    }
}

/// The calls of a route to declared functions and methods, in source
/// order, consecutive calls to one callee once.
pub open spec fn meaningful_spec(calls: Seq<CallFact>, entries: Seq<(Seq<char>, LocView)>) -> Seq<
    CallFact,
> {
    dedup_callees(stable_sort(callable_calls(calls, entries), |a: CallFact, b: CallFact| start_lt(a, b)))
}

/// At most the first `n` of `s`: `iter().take(n)`.
pub open spec fn first_n<A>(s: Seq<A>, n: nat) -> Seq<A> {
    if s.len() > n {
        s.take(n as int)
    } else {
        s
    }
}

/// A copy of `c`.
pub fn copy_call(c: &CallFact) -> (r: CallFact)
    ensures
        r == *c,
{
    let r = CallFact {
        id: c.id.clone(),
        callee: c.callee.clone(),
        expression: c.expression.clone(),
        owner: match &c.owner {
            Some(o) => Some(o.clone()),
            None => None,
        },
        span: c.span,
    };
    r
}

pub(crate) fn sort_by_start(calls: Vec<CallFact>) -> (r: Vec<CallFact>)
    ensures
        r@ == stable_sort(calls@, |a: CallFact, b: CallFact| start_lt(a, b)),
{
    let lt = |a: &CallFact, b: &CallFact| -> (r: bool)
        ensures
            r == (a.span.start < b.span.start),
        { a.span.start < b.span.start };
    stable_sort_by(calls, &lt, Ghost(|a: CallFact, b: CallFact| start_lt(a, b)))
}

/// The calls of a route to declared functions and methods, ordered by
/// position, repeated consecutive callees once.
pub fn meaningful_calls(calls: &Vec<CallFact>, symbols: &SymbolIndex) -> (r: Vec<CallFact>)
    ensures
        r@ == meaningful_spec(calls@, symbols@),
{
    let mut picked: Vec<CallFact> = Vec::new();
    let mut i: usize = 0;
    while i < calls.len()
        invariant
            i <= calls.len(),
            picked@ == callable_calls(calls@.take(i as int), symbols@),
        decreases calls.len() - i,
    {
        assert(calls@.take(i + 1).drop_last() == calls@.take(i as int));
        let callee = chars_of(calls[i].callee.as_str());
        let callable = match get_first(symbols, &callee) {
            Some(location) => location.kind == SymbolKind::Method || location.kind
                == SymbolKind::Function,
            None => false,
        };
        if callable {
            picked.push(copy_call(&calls[i]));
        }
        i += 1;
    }
    assert(calls@.take(calls.len() as int) == calls@);
    let sorted = sort_by_start(picked);
    let ghost sv = sorted@;
    let mut result: Vec<CallFact> = Vec::new();
    let mut last: Vec<char> = Vec::new();
    let mut j: usize = 0;
    while j < sorted.len()
        invariant
            j <= sorted.len(),
            sv == sorted@,
            result@ == dedup_callees(sv.take(j as int)),
            result@.len() > 0 ==> last@ == result@.last().callee@,
        decreases sorted.len() - j,
    {
        assert(sv.take(j + 1).drop_last() == sv.take(j as int));
        let callee = chars_of(sorted[j].callee.as_str());
        if !(result.len() > 0 && same(&last, &callee)) {
            result.push(copy_call(&sorted[j]));
            last = callee;
        }
        j += 1;
    }
    assert(sv.take(sorted.len() as int) == sv);
    result
}

/// The calls made inside `owner`, in order.
pub open spec fn owned_by(calls: Seq<CallFact>, owner: Seq<char>) -> Seq<CallFact>
    decreases calls.len(),
{
    if calls.len() == 0 {
        Seq::empty()
    } else if opt_str(calls.last().owner) == Some(owner) {
        owned_by(calls.drop_last(), owner).push(calls.last())
    } else {
        owned_by(calls.drop_last(), owner)
    }
}

/// The calls that `owner` makes in file `f`, by position, at most 32.
pub open spec fn owned_calls(f: FileAnalysis, owner: Seq<char>) -> Seq<CallFact> {
    first_n(
        stable_sort(owned_by(f.calls@, owner), |a: CallFact, b: CallFact| start_lt(a, b)),
        MAX_CALLS_PER_SYMBOL as nat,
    )
}

fn calls_owned_by(file: &FileAnalysis, owner: &Vec<char>) -> (r: Vec<CallFact>)
    ensures
        r@ == owned_calls(*file, owner@),
{
    let mut picked: Vec<CallFact> = Vec::new();
    let mut i: usize = 0;
    while i < file.calls.len()
        invariant
            i <= file.calls.len(),
            picked@ == owned_by(file.calls@.take(i as int), owner@),
        decreases file.calls.len() - i,
    {
        assert(file.calls@.take(i + 1).drop_last() == file.calls@.take(i as int));
        let mine = match &file.calls[i].owner {
            Some(o) => same(&chars_of(o.as_str()), owner),
            None => false,
        };
        if mine {
            picked.push(copy_call(&file.calls[i]));
        }
        i += 1;
    }
    assert(file.calls@.take(file.calls.len() as int) == file.calls@);
    let mut sorted = sort_by_start(picked);
    sorted.truncate(MAX_CALLS_PER_SYMBOL);
    sorted
}

// ---------------------------------------------------------------------------
// Expansion of called symbols
// ---------------------------------------------------------------------------

pub open spec fn depth_measure(depth: nat) -> nat {
    if depth <= MAX_EXPANSION_DEPTH {
        (MAX_EXPANSION_DEPTH + 1 - depth) as nat
    } else {
        0
    }
}

/// `expand_symbol`: what expanding `name` (whose node is `parent`) at
/// `depth` adds to the graph, and the names expanded so far.
pub open spec fn expand_spec(
    name: Seq<char>,
    parent: Seq<char>,
    files: Seq<FileAnalysis>,
    sym: Seq<(Seq<char>, LocView)>,
    mods: Seq<(Seq<char>, LocView)>,
    g: GraphView,
    ex: Seq<Seq<char>>,
    depth: nat,
) -> (GraphView, Seq<Seq<char>>)
    decreases depth_measure(depth), files.len() + 1, 0nat,
{
    if depth > MAX_EXPANSION_DEPTH || is_full_spec(g) || ex.contains(name) {
        (g, ex)
    } else {
        expand_files(name, parent, files, sym, mods, g, ex.push(name), depth, 0)
    }
}

/// The expansion of `name` over files `fi..`.
pub open spec fn expand_files(
    name: Seq<char>,
    parent: Seq<char>,
    files: Seq<FileAnalysis>,
    sym: Seq<(Seq<char>, LocView)>,
    mods: Seq<(Seq<char>, LocView)>,
    g: GraphView,
    ex: Seq<Seq<char>>,
    depth: nat,
    fi: int,
) -> (GraphView, Seq<Seq<char>>)
    decreases depth_measure(depth), files.len() - fi, 33nat,
{
    if fi < 0 || fi >= files.len() || depth > MAX_EXPANSION_DEPTH {
        (g, ex)
    } else {
        let (g2, ex2) = expand_calls(name, parent, files, sym, mods, g, ex, depth, fi, 0);
        expand_files(name, parent, files, sym, mods, g2, ex2, depth, fi + 1)
    }
}

/// The expansion of `name` over its calls `ci..` in file `fi`; it stops when
/// the graph is full.
pub open spec fn expand_calls(
    name: Seq<char>,
    parent: Seq<char>,
    files: Seq<FileAnalysis>,
    sym: Seq<(Seq<char>, LocView)>,
    mods: Seq<(Seq<char>, LocView)>,
    g: GraphView,
    ex: Seq<Seq<char>>,
    depth: nat,
    fi: int,
    ci: int,
) -> (GraphView, Seq<Seq<char>>)
    decreases depth_measure(depth), files.len() - fi, owned_calls(files[fi], name).len() - ci,
{
    let calls = owned_calls(files[fi], name);
    if fi < 0 || fi >= files.len() || ci < 0 || ci >= calls.len() || depth > MAX_EXPANSION_DEPTH
        || is_full_spec(g) {
        (g, ex)
    } else {
        let call = calls[ci];
        match parse_prisma_call_spec(call.callee@) {
            Some((m, o, a)) => expand_calls(
                name,
                parent,
                files,
                sym,
                mods,
                db_relation_spec(g, parent, files[fi].path@, call, m, o, a, mods),
                ex,
                depth,
                fi,
                ci + 1,
            ),
            None => match lookup_first(sym, call.callee@) {
                None => expand_calls(name, parent, files, sym, mods, g, ex, depth, fi, ci + 1),
                Some(loc) => {
                    if !(loc.kind == SymbolKind::Method || loc.kind == SymbolKind::Function) {
                        expand_calls(name, parent, files, sym, mods, g, ex, depth, fi, ci + 1)
                    } else {
                        let (g1, child) = add_node_spec(
                            g,
                            "symbol:"@ + call.callee@,
                            call.callee@,
                            symbol_detail_spec(loc.kind),
                            if loc.kind == SymbolKind::Method {
                                ContractNodeKind::Service
                            } else {
                                ContractNodeKind::Helper
                            },
                            Some(loc.file_path),
                            Some(loc.span),
                        );
                        let g2 = add_edge_spec(
                            g1,
                            parent,
                            child,
                            ContractEdgeKind::Invokes,
                            "invokes"@,
                        );
                        let (g3, ex3) = if depth + 1 > MAX_EXPANSION_DEPTH {
                            (g2, ex)
                        } else {
                            expand_spec(call.callee@, child, files, sym, mods, g2, ex, depth + 1)
                        };
                        expand_calls(name, parent, files, sym, mods, g3, ex3, depth, fi, ci + 1)
                    }
                },
            },
        }
    }
}

fn contains_name(names: &Vec<Vec<char>>, name: &Vec<char>) -> (r: bool)
    ensures
        r == names.deep_view().contains(name@),
{
    let ghost nv = names.deep_view();
    let mut i: usize = 0;
    while i < names.len()
        invariant
            i <= names.len(),
            nv == names.deep_view(),
            forall|j: int| 0 <= j < i ==> nv[j] != name@,
        decreases names.len() - i,
    {
        assert(nv[i as int] == names[i as int]@);
        if same(&names[i], name) {
            assert(nv[i as int] == name@);
            return true;
        }
        i += 1;
    }
    false
}

/// Follows the calls that `symbol_name` makes: each call to a declared
/// function or method becomes a node under `parent_node_id` and is expanded
/// one level deeper, each Prisma call a database node; every name is
/// expanded once, to depth 2, while the graph has room.
pub fn expand_symbol(
    symbol_name: &Vec<char>,
    parent_node_id: &Vec<char>,
    files: &[FileAnalysis],
    symbols: &SymbolIndex,
    prisma_models: &SymbolIndex,
    graph: &mut ContractGraph,
    expanded: &mut Vec<Vec<char>>,
    depth: usize,
)
    requires
        old(graph).wf(),
    ensures
        final(graph).wf(),
        (final(graph)@, final(expanded).deep_view()) == expand_spec(
            symbol_name@,
            parent_node_id@,
            files@,
            symbols@,
            prisma_models@,
            old(graph)@,
            old(expanded).deep_view(),
            depth as nat,
        ),
    decreases depth_measure(depth as nat),
{
    if depth > MAX_EXPANSION_DEPTH || graph.is_full() || contains_name(expanded, symbol_name) {
        return;
    }
    let ghost ex0 = expanded.deep_view();
    let name_copy = slice_of(symbol_name, 0, symbol_name.len());
    assert(name_copy@ =~= symbol_name@);
    expanded.push(name_copy);
    assert(expanded.deep_view() =~= ex0.push(symbol_name@));
    let ghost target = expand_files(
        symbol_name@,
        parent_node_id@,
        files@,
        symbols@,
        prisma_models@,
        graph@,
        expanded.deep_view(),
        depth as nat,
        0,
    );
    let mut fi: usize = 0;
    while fi < files.len()
        invariant
            fi <= files.len(),
            depth <= MAX_EXPANSION_DEPTH,
            graph.wf(),
            expand_files(
                symbol_name@,
                parent_node_id@,
                files@,
                symbols@,
                prisma_models@,
                graph@,
                expanded.deep_view(),
                depth as nat,
                fi as int,
            ) == target,
        decreases files.len() - fi,
    {
        let file = &files[fi];
        let calls = calls_owned_by(file, symbol_name);
        let ghost cv = calls@;
        assert(cv == owned_calls(files@[fi as int], symbol_name@));
        let mut ci: usize = 0;
        while ci < calls.len() && !graph.is_full()
            invariant
                fi < files.len(),
                *file == files@[fi as int],
                ci <= calls.len(),
                cv == calls@,
                cv == owned_calls(files@[fi as int], symbol_name@),
                depth <= MAX_EXPANSION_DEPTH,
                graph.wf(),
                expand_files(
                    symbol_name@,
                    parent_node_id@,
                    files@,
                    symbols@,
                    prisma_models@,
                    expand_calls(
                        symbol_name@,
                        parent_node_id@,
                        files@,
                        symbols@,
                        prisma_models@,
                        graph@,
                        expanded.deep_view(),
                        depth as nat,
                        fi as int,
                        ci as int,
                    ).0,
                    expand_calls(
                        symbol_name@,
                        parent_node_id@,
                        files@,
                        symbols@,
                        prisma_models@,
                        graph@,
                        expanded.deep_view(),
                        depth as nat,
                        fi as int,
                        ci as int,
                    ).1,
                    depth as nat,
                    fi + 1,
                ) == target,
            decreases calls.len() - ci,
        {
            let call = &calls[ci];
            assert(*call == cv[ci as int]);
            let ghost gb = graph@;
            let ghost exb = expanded.deep_view();
            match parse_prisma_call(call.callee.as_str()) {
                Some((model, operation, access)) => {
                    add_database_relation(
                        parent_node_id,
                        &file.path,
                        call,
                        &model,
                        &operation,
                        access,
                        prisma_models,
                        graph,
                    );
                },
                None => {
                    let callee = chars_of(call.callee.as_str());
                    match get_first(symbols, &callee) {
                        None => {},
                        Some(location) => {
                            if location.kind == SymbolKind::Method || location.kind
                                == SymbolKind::Function {
                                let kind = if location.kind == SymbolKind::Method {
                                    ContractNodeKind::Service
                                } else {
                                    ContractNodeKind::Helper
                                };
                                let mut key = chars_of("symbol:");
                                append(&mut key, &callee);
                                let label = slice_of(&callee, 0, callee.len());
                                assert(label@ =~= callee@);
                                let child_id = graph.add_node(
                                    &key,
                                    label,
                                    symbol_detail(location.kind),
                                    kind,
                                    Some(copy_string(&location.file_path)),
                                    Some(location.span),
                                );
                                graph.add_edge(
                                    parent_node_id,
                                    &child_id,
                                    ContractEdgeKind::Invokes,
                                    "invokes",
                                );
                                expand_symbol(
                                    &callee,
                                    &child_id,
                                    files,
                                    symbols,
                                    prisma_models,
                                    graph,
                                    expanded,
                                    depth + 1,
                                );
                            }
                        },
                    }
                },
            }
            // One step of the expansion was taken.
            assert(expand_calls(
                symbol_name@,
                parent_node_id@,
                files@,
                symbols@,
                prisma_models@,
                gb,
                exb,
                depth as nat,
                fi as int,
                ci as int,
            ) == expand_calls(
                symbol_name@,
                parent_node_id@,
                files@,
                symbols@,
                prisma_models@,
                graph@,
                expanded.deep_view(),
                depth as nat,
                fi as int,
                ci + 1,
            ));
            ci += 1;
        }
        fi += 1;
    }
}

// ---------------------------------------------------------------------------
// Contracts
// ---------------------------------------------------------------------------

pub open spec fn endpoint_label(route: RouteFact) -> Seq<char> {
    route.method@ + " "@ + route.path@
}

pub open spec fn endpoint_detail(route: RouteFact) -> Seq<char> {
    match opt_str(route.summary) {
        Some(s) => s,
        None => "API contract"@,
    }
}

/// The chain of middleware nodes `i..`, each guarded by the one before;
/// gives the graph and the last node of the chain.
pub open spec fn middleware_steps(
    g: GraphView,
    origin: Seq<char>,
    file_path: Seq<char>,
    mws: Seq<Seq<char>>,
    handler: Option<SourceSpan>,
    i: int,
) -> (GraphView, Seq<char>)
    decreases mws.len() - i,
{
    if i < 0 || i >= mws.len() {
        (g, origin)
    } else {
        let mw = mws[i];
        let (g1, id) = add_node_spec(
            g,
            "middleware:"@ + decimal(i as nat) + ":"@ + mw,
            mw,
            middleware_detail_spec(mw),
            ContractNodeKind::Middleware,
            Some(file_path),
            handler,
        );
        let g2 = add_edge_spec(g1, origin, id, ContractEdgeKind::Guards, "guards"@);
        middleware_steps(g2, id, file_path, mws, handler, i + 1)
    }
}

/// The schema nodes of the references `i..` that name declared schemas.
pub open spec fn schema_steps(
    g: GraphView,
    endpoint: Seq<char>,
    refs: Seq<Seq<char>>,
    sym: Seq<(Seq<char>, LocView)>,
    i: int,
) -> GraphView
    decreases refs.len() - i,
{
    if i < 0 || i >= refs.len() {
        g
    } else {
        let name = refs[i];
        match lookup_first(sym, name) {
            None => schema_steps(g, endpoint, refs, sym, i + 1),
            Some(loc) => {
                if loc.kind != SymbolKind::Schema {
                    schema_steps(g, endpoint, refs, sym, i + 1)
                } else {
                    let (g1, id) = add_node_spec(
                        g,
                        "schema:"@ + name,
                        name,
                        schema_detail_spec(name),
                        ContractNodeKind::Schema,
                        Some(loc.file_path),
                        Some(loc.span),
                    );
                    let g2 = if is_response_schema_spec(name) {
                        add_edge_spec(g1, endpoint, id, ContractEdgeKind::Returns, "returns"@)
                    } else {
                        add_edge_spec(g1, id, endpoint, ContractEdgeKind::UsesSchema, "validates"@)
                    };
                    schema_steps(g2, endpoint, refs, sym, i + 1)
                }
            },
        }
    }
}

/// The invoked symbols of calls `i..`, each expanded; stops when the graph
/// is full.
pub open spec fn call_steps(
    g: GraphView,
    ex: Seq<Seq<char>>,
    origin: Seq<char>,
    calls: Seq<CallFact>,
    files: Seq<FileAnalysis>,
    sym: Seq<(Seq<char>, LocView)>,
    mods: Seq<(Seq<char>, LocView)>,
    i: int,
) -> (GraphView, Seq<Seq<char>>)
    decreases calls.len() - i,
{
    if i < 0 || i >= calls.len() || is_full_spec(g) {
        (g, ex)
    } else {
        let callee = calls[i].callee@;
        match lookup_first(sym, callee) {
            None => call_steps(g, ex, origin, calls, files, sym, mods, i + 1),
            Some(loc) => {
                let kind = if loc.kind == SymbolKind::Method || loc.kind == SymbolKind::Class {
                    ContractNodeKind::Service
                } else {
                    ContractNodeKind::Helper
                };
                let (g1, id) = add_node_spec(
                    g,
                    "symbol:"@ + callee,
                    callee,
                    symbol_detail_spec(loc.kind),
                    kind,
                    Some(loc.file_path),
                    Some(loc.span),
                );
                let g2 = add_edge_spec(g1, origin, id, ContractEdgeKind::Invokes, "invokes"@);
                let (g3, ex3) = expand_spec(callee, id, files, sym, mods, g2, ex, 0);
                call_steps(g3, ex3, origin, calls, files, sym, mods, i + 1)
            },
        }
    }
}

/// The database relations of the Prisma calls `i..` of a route.
pub open spec fn db_steps(
    g: GraphView,
    origin: Seq<char>,
    file_path: Seq<char>,
    calls: Seq<CallFact>,
    mods: Seq<(Seq<char>, LocView)>,
    i: int,
) -> GraphView
    decreases calls.len() - i,
{
    if i < 0 || i >= calls.len() {
        g
    } else {
        match parse_prisma_call_spec(calls[i].callee@) {
            Some((m, o, a)) => db_steps(
                db_relation_spec(g, origin, file_path, calls[i], m, o, a, mods),
                origin,
                file_path,
                calls,
                mods,
                i + 1,
            ),
            None => db_steps(g, origin, file_path, calls, mods, i + 1),
        }
    }
}

/// The graph of the contract of `route`, declared in `file`: the endpoint,
/// up to 8 middleware in a chain, up to 16 schemas, up to 12 invoked
/// symbols expanded, and the Prisma calls made directly by the route.
pub open spec fn contract_graph_spec(
    file: FileAnalysis,
    route: RouteFact,
    files: Seq<FileAnalysis>,
    sym: Seq<(Seq<char>, LocView)>,
    mods: Seq<(Seq<char>, LocView)>,
) -> GraphView {
    let (g0, endpoint) = add_node_spec(
        empty_graph(route.id@),
        "endpoint"@,
        endpoint_label(route),
        endpoint_detail(route),
        ContractNodeKind::Endpoint,
        Some(file.path@),
        Some(route.span),
    );
    let (g1, origin) = middleware_steps(
        g0,
        endpoint,
        file.path@,
        first_n(route.middleware.deep_view(), 8),
        route.handler_span,
        0,
    );
    let g2 = schema_steps(g1, endpoint, first_n(route.schema_refs.deep_view(), 16), sym, 0);
    let (g3, ex3) = call_steps(
        g2,
        Seq::empty(),
        origin,
        first_n(meaningful_spec(route.calls@, sym), 12),
        files,
        sym,
        mods,
        0,
    );
    db_steps(g3, origin, file.path@, route.calls@, mods, 0)
}

/// The contract of `route`, declared in `file`.
pub open spec fn contract_spec(
    file: FileAnalysis,
    route: RouteFact,
    files: Seq<FileAnalysis>,
    sym: Seq<(Seq<char>, LocView)>,
    mods: Seq<(Seq<char>, LocView)>,
) -> ContractView {
    let g = contract_graph_spec(file, route, files, sym, mods);
    ContractView {
        id: route.id@,
        method: route.method@,
        path: route.path@,
        summary: opt_str(route.summary),
        file_path: file.path@,
        span: route.span,
        nodes: g.nodes,
        edges: g.edges,
    }
}

/// Builds the contract graph of one route.
pub fn build_contract(
    route_file: &FileAnalysis,
    route: &RouteFact,
    files: &[FileAnalysis],
    symbols: &SymbolIndex,
    prisma_models: &SymbolIndex,
) -> (r: ApiContract)
    ensures
        r@ == contract_spec(*route_file, *route, files@, symbols@, prisma_models@),
{
    let path = chars_of(route_file.path.as_str());
    let mut graph = ContractGraph::new(chars_of(route.id.as_str()));
    let mut label = chars_of(route.method.as_str());
    append_str(&mut label, " ");
    append(&mut label, &chars_of(route.path.as_str()));
    let detail = match &route.summary {
        Some(s) => chars_of(s.as_str()),
        None => chars_of("API contract"),
    };
    let endpoint_id = graph.add_node(
        &chars_of("endpoint"),
        label,
        detail,
        ContractNodeKind::Endpoint,
        Some(copy_string(&route_file.path)),
        Some(route.span),
    );
    let ghost fp = route_file.path@;

    // Middleware, each guarding the next.
    let ghost mws = first_n(route.middleware.deep_view(), 8);
    let ghost after_mw = middleware_steps(graph@, endpoint_id@, fp, mws, route.handler_span, 0);
    let mut origin = slice_of(&endpoint_id, 0, endpoint_id.len());
    assert(origin@ =~= endpoint_id@);
    let mut i: usize = 0;
    while i < route.middleware.len() && i < 8
        invariant
            i <= route.middleware.len(),
            i <= 8,
            graph.wf(),
            fp == route_file.path@,
            mws == first_n(route.middleware.deep_view(), 8),
            mws.len() <= 8,
            mws.len() == (if route.middleware@.len() > 8 { 8 } else { route.middleware@.len() }),
            middleware_steps(graph@, origin@, fp, mws, route.handler_span, i as int) == after_mw,
        decreases route.middleware.len() - i,
    {
        let mw = chars_of(route.middleware[i].as_str());
        assert(mws[i as int] == mw@);
        let mut key = chars_of("middleware:");
        append(&mut key, &decimal_of(i as u64));
        append_str(&mut key, ":");
        append(&mut key, &mw);
        let label = slice_of(&mw, 0, mw.len());
        assert(label@ =~= mw@);
        let id = graph.add_node(
            &key,
            label,
            middleware_detail(&mw),
            ContractNodeKind::Middleware,
            Some(copy_string(&route_file.path)),
            route.handler_span,
        );
        graph.add_edge(&origin, &id, ContractEdgeKind::Guards, "guards");
        origin = id;
        i += 1;
    }
    assert(middleware_steps(graph@, origin@, fp, mws, route.handler_span, i as int) == (
        graph@,
        origin@,
    ));

    // Schemas that the handler references.
    let ghost refs = first_n(route.schema_refs.deep_view(), 16);
    let ghost after_schemas = schema_steps(graph@, endpoint_id@, refs, symbols@, 0);
    let mut i: usize = 0;
    while i < route.schema_refs.len() && i < 16
        invariant
            i <= route.schema_refs.len(),
            i <= 16,
            graph.wf(),
            refs == first_n(route.schema_refs.deep_view(), 16),
            refs.len() == (if route.schema_refs@.len() > 16 { 16 } else { route.schema_refs@.len() }),
            schema_steps(graph@, endpoint_id@, refs, symbols@, i as int) == after_schemas,
        decreases route.schema_refs.len() - i,
    {
        let name = chars_of(route.schema_refs[i].as_str());
        assert(refs[i as int] == name@);
        match get_first(symbols, &name) {
            None => {},
            Some(location) => {
                if location.kind == SymbolKind::Schema {
                    let mut key = chars_of("schema:");
                    append(&mut key, &name);
                    let label = slice_of(&name, 0, name.len());
                    assert(label@ =~= name@);
                    let schema_id = graph.add_node(
                        &key,
                        label,
                        schema_detail(&name),
                        ContractNodeKind::Schema,
                        Some(copy_string(&location.file_path)),
                        Some(location.span),
                    );
                    if is_response_schema(&name) {
                        graph.add_edge(&endpoint_id, &schema_id, ContractEdgeKind::Returns, "returns");
                    } else {
                        graph.add_edge(
                            &schema_id,
                            &endpoint_id,
                            ContractEdgeKind::UsesSchema,
                            "validates",
                        );
                    }
                }
            },
        }
        i += 1;
    }

    // Invoked symbols, expanded.
    let calls = meaningful_calls(&route.calls, symbols);
    let ghost cs = first_n(calls@, 12);
    let mut expanded: Vec<Vec<char>> = Vec::new();
    assert(expanded.deep_view() =~= Seq::<Seq<char>>::empty());
    let ghost after_calls = call_steps(
        graph@,
        expanded.deep_view(),
        origin@,
        cs,
        files@,
        symbols@,
        prisma_models@,
        0,
    );
    let mut i: usize = 0;
    while i < calls.len() && i < 12 && !graph.is_full()
        invariant
            i <= calls.len(),
            i <= 12,
            graph.wf(),
            cs == first_n(calls@, 12),
            cs.len() == (if calls@.len() > 12 { 12 } else { calls@.len() }),
            call_steps(
                graph@,
                expanded.deep_view(),
                origin@,
                cs,
                files@,
                symbols@,
                prisma_models@,
                i as int,
            ) == after_calls,
        decreases calls.len() - i,
    {
        let call = &calls[i];
        assert(cs[i as int] == *call);
        let callee = chars_of(call.callee.as_str());
        match get_first(symbols, &callee) {
            None => {},
            Some(location) => {
                let kind = if location.kind == SymbolKind::Method || location.kind
                    == SymbolKind::Class {
                    ContractNodeKind::Service
                } else {
                    ContractNodeKind::Helper
                };
                let mut key = chars_of("symbol:");
                append(&mut key, &callee);
                let label = slice_of(&callee, 0, callee.len());
                assert(label@ =~= callee@);
                let node_id = graph.add_node(
                    &key,
                    label,
                    symbol_detail(location.kind),
                    kind,
                    Some(copy_string(&location.file_path)),
                    Some(location.span),
                );
                graph.add_edge(&origin, &node_id, ContractEdgeKind::Invokes, "invokes");
                expand_symbol(
                    &callee,
                    &node_id,
                    files,
                    symbols,
                    prisma_models,
                    &mut graph,
                    &mut expanded,
                    0,
                );
            },
        }
        i += 1;
    }

    // Prisma calls made by the route itself.
    let ghost after_db = db_steps(graph@, origin@, fp, route.calls@, prisma_models@, 0);
    let mut i: usize = 0;
    while i < route.calls.len()
        invariant
            i <= route.calls.len(),
            graph.wf(),
            fp == route_file.path@,
            db_steps(graph@, origin@, fp, route.calls@, prisma_models@, i as int) == after_db,
        decreases route.calls.len() - i,
    {
        let call = &route.calls[i];
        match parse_prisma_call(call.callee.as_str()) {
            Some((model, operation, access)) => {
                add_database_relation(
                    &origin,
                    &route_file.path,
                    call,
                    &model,
                    &operation,
                    access,
                    prisma_models,
                    &mut graph,
                );
            },
            None => {},
        }
        i += 1;
    }
    let ContractGraph { contract_id: _, nodes, node_keys: _, node_ids: _, edges, edge_ends: _ } =
        graph;
    ApiContract {
        id: copy_string(&route.id),
        method: copy_string(&route.method),
        path: copy_string(&route.path),
        summary: copy_opt_string(&route.summary),
        file_path: copy_string(&route_file.path),
        span: route.span,
        nodes,
        edges,
    }
}

/// The contracts of the first `n` routes of `file`.
pub open spec fn route_contracts(
    file: FileAnalysis,
    n: int,
    files: Seq<FileAnalysis>,
    sym: Seq<(Seq<char>, LocView)>,
    mods: Seq<(Seq<char>, LocView)>,
) -> Seq<ContractView>
    decreases n,
{
    if n <= 0 || n > file.routes@.len() {
        Seq::empty()
    } else {
        route_contracts(file, n - 1, files, sym, mods).push(
            contract_spec(file, file.routes@[n - 1], files, sym, mods),
        )
    }
}

/// The contracts of every route of `prefix`, file by file.
pub open spec fn contracts_of(
    prefix: Seq<FileAnalysis>,
    files: Seq<FileAnalysis>,
    sym: Seq<(Seq<char>, LocView)>,
    mods: Seq<(Seq<char>, LocView)>,
) -> Seq<ContractView>
    decreases prefix.len(),
{
    if prefix.len() == 0 {
        Seq::empty()
    } else {
        contracts_of(prefix.drop_last(), files, sym, mods) + route_contracts(
            prefix.last(),
            prefix.last().routes@.len() as int,
            files,
            sym,
            mods,
        )
    }
}

/// Contracts are ordered by path, then method, then file.
pub open spec fn contract_lt(a: ContractView, b: ContractView) -> bool {
    seq_lt(a.path, b.path) || (a.path == b.path && (seq_lt(a.method, b.method) || (a.method
        == b.method && seq_lt(a.file_path, b.file_path))))
}

/// The contracts of all routes of `files`, in stable order by path, method
/// and file.
pub open spec fn contracts_spec(files: Seq<FileAnalysis>) -> Seq<ContractView> {
    stable_sort(
        contracts_of(files, files, symbol_entries(files), model_entries(files)),
        |a: ContractView, b: ContractView| contract_lt(a, b),
    )
}

pub open spec fn contract_views(cs: Seq<ApiContract>) -> Seq<ContractView> {
    cs.map_values(|c: ApiContract| c@)
}

fn contract_before(a: &ApiContract, b: &ApiContract) -> (r: bool)
    ensures
        r == contract_lt(a@, b@),
{
    let ap = chars_of(a.path.as_str());
    let bp = chars_of(b.path.as_str());
    if less(&ap, &bp) {
        return true;
    }
    if !same(&ap, &bp) {
        return false;
    }
    let am = chars_of(a.method.as_str());
    let bm = chars_of(b.method.as_str());
    if less(&am, &bm) {
        return true;
    }
    if !same(&am, &bm) {
        return false;
    }
    less(&chars_of(a.file_path.as_str()), &chars_of(b.file_path.as_str()))
}

/// The contract of every route, ordered by path, method and file.
pub fn build_contracts(files: &[FileAnalysis]) -> (r: Vec<ApiContract>)
    ensures
        contract_views(r@) == contracts_spec(files@),
{
    let symbols = index_symbols(files);
    let prisma_models = index_prisma_models(files);
    let ghost sym = symbols@;
    let ghost mods = prisma_models@;
    let mut contracts: Vec<ApiContract> = Vec::new();
    let mut i: usize = 0;
    while i < files.len()
        invariant
            i <= files.len(),
            sym == symbol_entries(files@),
            mods == model_entries(files@),
            symbols@ == sym,
            prisma_models@ == mods,
            contract_views(contracts@) == contracts_of(files@.take(i as int), files@, sym, mods),
        decreases files.len() - i,
    {
        let file = &files[i];
        assert(files@.take(i + 1).drop_last() == files@.take(i as int));
        let ghost base = contract_views(contracts@);
        let mut j: usize = 0;
        while j < file.routes.len()
            invariant
                j <= file.routes.len(),
                symbols@ == sym,
                prisma_models@ == mods,
                contract_views(contracts@) == base + route_contracts(
                    *file,
                    j as int,
                    files@,
                    sym,
                    mods,
                ),
            decreases file.routes.len() - j,
        {
            let c = build_contract(file, &file.routes[j], files, &symbols, &prisma_models);
            let ghost cv = c@;
            let ghost before = contract_views(contracts@);
            contracts.push(c);
            assert(contract_views(contracts@) =~= before.push(cv));
            j += 1;
        }
        i += 1;
    }
    assert(files@.take(files.len() as int) == files@);
    let before = |a: &ApiContract, b: &ApiContract| -> (r: bool)
        ensures
            r == contract_lt(a@, b@),
        { contract_before(a, b) };
    let ghost unsorted = contracts@;
    let sorted = stable_sort_by(
        contracts,
        &before,
        Ghost(|a: ApiContract, b: ApiContract| contract_lt(a@, b@)),
    );
    proof {
        lemma_sort_map(
            unsorted,
            |a: ApiContract, b: ApiContract| contract_lt(a@, b@),
            |c: ApiContract| c@,
            |a: ContractView, b: ContractView| contract_lt(a, b),
        );
    }
    sorted
}

// ---------------------------------------------------------------------------
// Laws of contract graphs
// ---------------------------------------------------------------------------

/// `id` names one of `nodes`, the nodes of contract `contract_id`.
pub open spec fn names_node(contract_id: Seq<char>, nodes: Seq<NodeView>, id: Seq<char>) -> bool {
    exists|i: nat| i < nodes.len() && id == #[trigger] node_id(contract_id, i)
}

/// `id` names one of the nodes of `g`.
pub open spec fn is_node_id(g: GraphView, id: Seq<char>) -> bool {
    names_node(g.contract_id, g.nodes, id)
}

/// What every contract keeps: nodes are numbered in the order they were
/// added and each names the file it comes from; every edge is numbered
/// likewise, joins two distinct nodes of the contract, and no two edges of
/// one kind join the same nodes in the same direction.
pub open spec fn well_linked(contract_id: Seq<char>, nodes: Seq<NodeView>, edges: Seq<EdgeView>) -> bool {
    &&& forall|i: int|
        0 <= i < nodes.len() ==> (#[trigger] nodes[i]).order == i as usize && nodes[i].id
            == node_id(contract_id, i as nat) && nodes[i].file_path is Some
    &&& forall|i: int|
        0 <= i < edges.len() ==> (#[trigger] edges[i]).id == edge_id(contract_id, i as nat)
            && edges[i].source != edges[i].target && names_node(contract_id, nodes, edges[i].source)
            && names_node(contract_id, nodes, edges[i].target)
    &&& forall|i: int, j: int|
        0 <= i < j < edges.len() ==> !((#[trigger] edges[i]).source == (#[trigger] edges[j]).source
            && edges[i].target == edges[j].target && edges[i].kind == edges[j].kind)
}

/// A graph under construction keeps a key per node and is well linked.
pub open spec fn graph_ok(g: GraphView) -> bool {
    &&& g.keys.len() == g.nodes.len()
    &&& well_linked(g.contract_id, g.nodes, g.edges)
}

/// `h` is `g` after more steps: same contract, at least its nodes.
pub open spec fn grows(g: GraphView, h: GraphView) -> bool {
    h.contract_id == g.contract_id && g.nodes.len() <= h.nodes.len()
}

proof fn lemma_grows_keeps_nodes(g: GraphView, h: GraphView, id: Seq<char>)
    requires
        grows(g, h),
        is_node_id(g, id),
    ensures
        is_node_id(h, id),
{
    let i = choose|i: nat| i < g.nodes.len() && id == #[trigger] node_id(g.contract_id, i);
    assert(i < h.nodes.len() && id == node_id(h.contract_id, i));
}

proof fn lemma_edges_keep(g: GraphView, h: GraphView)
    requires
        grows(g, h),
        h.edges == g.edges,
        forall|i: int|
            0 <= i < g.edges.len() ==> is_node_id(g, (#[trigger] g.edges[i]).source) && is_node_id(
                g,
                g.edges[i].target,
            ),
    ensures
        forall|i: int|
            0 <= i < h.edges.len() ==> is_node_id(h, (#[trigger] h.edges[i]).source) && is_node_id(
                h,
                h.edges[i].target,
            ),
{
    assert forall|i: int| 0 <= i < h.edges.len() implies is_node_id(h, (#[trigger] h.edges[i]).source)
        && is_node_id(h, h.edges[i].target) by {
        lemma_grows_keeps_nodes(g, h, g.edges[i].source);
        lemma_grows_keeps_nodes(g, h, g.edges[i].target);
    }
}

proof fn lemma_add_node_ok(
    g: GraphView,
    key: Seq<char>,
    label: Seq<char>,
    detail: Seq<char>,
    kind: ContractNodeKind,
    file_path: Option<Seq<char>>,
    span: Option<SourceSpan>,
)
    requires
        graph_ok(g),
        file_path is Some,
    ensures
        graph_ok(add_node_spec(g, key, label, detail, kind, file_path, span).0),
        grows(g, add_node_spec(g, key, label, detail, kind, file_path, span).0),
        is_node_id(
            add_node_spec(g, key, label, detail, kind, file_path, span).0,
            add_node_spec(g, key, label, detail, kind, file_path, span).1,
        ),
{
    lemma_key_index(g.keys, key, 0);
    let (h, id) = add_node_spec(g, key, label, detail, kind, file_path, span);
    match key_index_from(g.keys, key, 0) {
        Some(i) => {
            assert(id == node_id(g.contract_id, i as nat));
            assert((i as nat) < h.nodes.len() && id == node_id(h.contract_id, i as nat));
        },
        None => {
            assert(id == node_id(g.contract_id, g.nodes.len()));
            assert(g.nodes.len() < h.nodes.len() && id == node_id(h.contract_id, g.nodes.len()));
            assert forall|i: int| 0 <= i < h.nodes.len() implies (#[trigger] h.nodes[i]).order
                == i as usize && h.nodes[i].id == node_id(h.contract_id, i as nat)
                && h.nodes[i].file_path is Some by {
                if i < g.nodes.len() {
                    assert(h.nodes[i] == g.nodes[i]);
                }
            }
            lemma_edges_keep(g, h);
        },
    }
}

proof fn lemma_key_index(keys: Seq<Seq<char>>, key: Seq<char>, i: int)
    requires
        0 <= i,
    ensures
        key_index_from(keys, key, i) matches Some(k) ==> i <= k < keys.len() && keys[k] == key,
    decreases keys.len() - i,
{
    if i < keys.len() {
        lemma_key_index(keys, key, i + 1);
    }
}

proof fn lemma_id_index(nodes: Seq<NodeView>, id: Seq<char>, i: int)
    requires
        0 <= i,
    ensures
        id_index_from(nodes, id, i) matches Some(k) ==> i <= k < nodes.len(),
    decreases nodes.len() - i,
{
    if i < nodes.len() {
        lemma_id_index(nodes, id, i + 1);
    }
}

proof fn lemma_add_edge_ok(
    g: GraphView,
    source: Seq<char>,
    target: Seq<char>,
    kind: ContractEdgeKind,
    label: Seq<char>,
)
    requires
        graph_ok(g),
        is_node_id(g, source),
        is_node_id(g, target),
    ensures
        graph_ok(add_edge_spec(g, source, target, kind, label)),
        grows(g, add_edge_spec(g, source, target, kind, label)),
{
    let h = add_edge_spec(g, source, target, kind, label);
    if !(source == target || has_edge(g.edges, source, target, kind)) {
        lemma_grows_keeps_nodes(g, h, source);
        lemma_grows_keeps_nodes(g, h, target);
        assert forall|i: int| 0 <= i < h.edges.len() implies (#[trigger] h.edges[i]).id == edge_id(
            h.contract_id,
            i as nat,
        ) && h.edges[i].source != h.edges[i].target && is_node_id(h, h.edges[i].source)
            && is_node_id(h, h.edges[i].target) by {
            if i < g.edges.len() {
                assert(h.edges[i] == g.edges[i]);
                lemma_grows_keeps_nodes(g, h, g.edges[i].source);
                lemma_grows_keeps_nodes(g, h, g.edges[i].target);
            }
        }
        assert forall|i: int, j: int| 0 <= i < j < h.edges.len() implies !((#[trigger] h.edges[i]).source
            == (#[trigger] h.edges[j]).source && h.edges[i].target == h.edges[j].target
            && h.edges[i].kind == h.edges[j].kind) by {
            assert(h.edges[i] == g.edges[i]);
            if j == g.edges.len() {
                if h.edges[i].source == source && h.edges[i].target == target && h.edges[i].kind
                    == kind {
                    assert(has_edge(g.edges, source, target, kind));
                }
            } else {
                assert(h.edges[j] == g.edges[j]);
            }
        }
    }
}

proof fn lemma_attach_ok(g: GraphView, id: Seq<char>, data: DataAccessView)
    requires
        graph_ok(g),
    ensures
        graph_ok(attach_spec(g, id, data)),
        grows(g, attach_spec(g, id, data)),
{
    lemma_id_index(g.nodes, id, 0);
    let h = attach_spec(g, id, data);
    match id_index_from(g.nodes, id, 0) {
        None => {},
        Some(k) => {
            assert forall|i: int| 0 <= i < h.nodes.len() implies (#[trigger] h.nodes[i]).order
                == i as usize && h.nodes[i].id == node_id(h.contract_id, i as nat)
                && h.nodes[i].file_path is Some by {
                if i != k {
                    assert(h.nodes[i] == g.nodes[i]);
                }
            }
            lemma_edges_keep(g, h);
        },
    }
}

proof fn lemma_db_relation_ok(
    g: GraphView,
    parent: Seq<char>,
    file_path: Seq<char>,
    call: CallFact,
    model: Seq<char>,
    op: Seq<char>,
    access: ContractEdgeKind,
    models: Seq<(Seq<char>, LocView)>,
)
    requires
        graph_ok(g),
        is_node_id(g, parent),
    ensures
        graph_ok(db_relation_spec(g, parent, file_path, call, model, op, access, models)),
        grows(g, db_relation_spec(g, parent, file_path, call, model, op, access, models)),
{
    let key = "database:"@ + file_path + ":"@ + model + ":"@ + op + ":"@ + decimal(
        call.span.start as nat,
    );
    let label = model + "."@ + op;
    let detail = database_detail_spec(model, op, access);
    lemma_add_node_ok(
        g,
        key,
        label,
        detail,
        ContractNodeKind::Database,
        Some(file_path),
        Some(call.span),
    );
    let (g1, db) = add_node_spec(
        g,
        key,
        label,
        detail,
        ContractNodeKind::Database,
        Some(file_path),
        Some(call.span),
    );
    let data = data_access_spec(model, op, access, call.expression@);
    lemma_attach_ok(g1, db, data);
    let g2 = attach_spec(g1, db, data);
    lemma_grows_keeps_nodes(g, g2, parent);
    lemma_grows_keeps_nodes(g1, g2, db);
    let edge_label = if access == ContractEdgeKind::Writes {
        "writes"@
    } else {
        "reads"@
    };
    lemma_add_edge_ok(g2, parent, db, access, edge_label);
    let g3 = add_edge_spec(g2, parent, db, access, edge_label);
    match lookup_last(models, lower(model)) {
        None => {},
        Some(loc) => {
            let mkey = "prisma-model:"@ + model;
            let mlabel = title_case_spec(model) + " model"@;
            lemma_add_node_ok(
                g3,
                mkey,
                mlabel,
                "Prisma data model"@,
                ContractNodeKind::Schema,
                Some(loc.file_path),
                Some(loc.span),
            );
            let (g4, model_id) = add_node_spec(
                g3,
                mkey,
                mlabel,
                "Prisma data model"@,
                ContractNodeKind::Schema,
                Some(loc.file_path),
                Some(loc.span),
            );
            lemma_grows_keeps_nodes(g2, g4, db);
            lemma_add_edge_ok(g4, db, model_id, ContractEdgeKind::UsesSchema, "model"@);
        },
    }
}

proof fn lemma_middleware_ok(
    g: GraphView,
    origin: Seq<char>,
    file_path: Seq<char>,
    mws: Seq<Seq<char>>,
    handler: Option<SourceSpan>,
    i: int,
)
    requires
        graph_ok(g),
        is_node_id(g, origin),
    ensures
        graph_ok(middleware_steps(g, origin, file_path, mws, handler, i).0),
        grows(g, middleware_steps(g, origin, file_path, mws, handler, i).0),
        is_node_id(
            middleware_steps(g, origin, file_path, mws, handler, i).0,
            middleware_steps(g, origin, file_path, mws, handler, i).1,
        ),
    decreases mws.len() - i,
{
    if 0 <= i < mws.len() {
        let mw = mws[i];
        let key = "middleware:"@ + decimal(i as nat) + ":"@ + mw;
        let detail = middleware_detail_spec(mw);
        lemma_add_node_ok(
            g,
            key,
            mw,
            detail,
            ContractNodeKind::Middleware,
            Some(file_path),
            handler,
        );
        let (g1, id) = add_node_spec(
            g,
            key,
            mw,
            detail,
            ContractNodeKind::Middleware,
            Some(file_path),
            handler,
        );
        lemma_grows_keeps_nodes(g, g1, origin);
        lemma_add_edge_ok(g1, origin, id, ContractEdgeKind::Guards, "guards"@);
        let g2 = add_edge_spec(g1, origin, id, ContractEdgeKind::Guards, "guards"@);
        lemma_grows_keeps_nodes(g1, g2, id);
        lemma_middleware_ok(g2, id, file_path, mws, handler, i + 1);
    }
}

proof fn lemma_schema_ok(
    g: GraphView,
    endpoint: Seq<char>,
    refs: Seq<Seq<char>>,
    sym: Seq<(Seq<char>, LocView)>,
    i: int,
)
    requires
        graph_ok(g),
        is_node_id(g, endpoint),
    ensures
        graph_ok(schema_steps(g, endpoint, refs, sym, i)),
        grows(g, schema_steps(g, endpoint, refs, sym, i)),
    decreases refs.len() - i,
{
    if 0 <= i < refs.len() {
        let name = refs[i];
        match lookup_first(sym, name) {
            None => lemma_schema_ok(g, endpoint, refs, sym, i + 1),
            Some(loc) => {
                if loc.kind != SymbolKind::Schema {
                    lemma_schema_ok(g, endpoint, refs, sym, i + 1);
                } else {
                    let key = "schema:"@ + name;
                    let detail = schema_detail_spec(name);
                    lemma_add_node_ok(
                        g,
                        key,
                        name,
                        detail,
                        ContractNodeKind::Schema,
                        Some(loc.file_path),
                        Some(loc.span),
                    );
                    let (g1, id) = add_node_spec(
                        g,
                        key,
                        name,
                        detail,
                        ContractNodeKind::Schema,
                        Some(loc.file_path),
                        Some(loc.span),
                    );
                    lemma_grows_keeps_nodes(g, g1, endpoint);
                    let g2 = if is_response_schema_spec(name) {
                        lemma_add_edge_ok(g1, endpoint, id, ContractEdgeKind::Returns, "returns"@);
                        add_edge_spec(g1, endpoint, id, ContractEdgeKind::Returns, "returns"@)
                    } else {
                        lemma_add_edge_ok(
                            g1,
                            id,
                            endpoint,
                            ContractEdgeKind::UsesSchema,
                            "validates"@,
                        );
                        add_edge_spec(g1, id, endpoint, ContractEdgeKind::UsesSchema, "validates"@)
                    };
                    lemma_grows_keeps_nodes(g1, g2, endpoint);
                    lemma_schema_ok(g2, endpoint, refs, sym, i + 1);
                }
            },
        }
    }
}

proof fn lemma_expand_ok(
    name: Seq<char>,
    parent: Seq<char>,
    files: Seq<FileAnalysis>,
    sym: Seq<(Seq<char>, LocView)>,
    mods: Seq<(Seq<char>, LocView)>,
    g: GraphView,
    ex: Seq<Seq<char>>,
    depth: nat,
)
    requires
        graph_ok(g),
        is_node_id(g, parent),
    ensures
        graph_ok(expand_spec(name, parent, files, sym, mods, g, ex, depth).0),
        grows(g, expand_spec(name, parent, files, sym, mods, g, ex, depth).0),
    decreases depth_measure(depth), files.len() + 1, 0nat,
{
    if !(depth > MAX_EXPANSION_DEPTH || is_full_spec(g) || ex.contains(name)) {
        lemma_expand_files_ok(name, parent, files, sym, mods, g, ex.push(name), depth, 0);
    }
}

proof fn lemma_expand_files_ok(
    name: Seq<char>,
    parent: Seq<char>,
    files: Seq<FileAnalysis>,
    sym: Seq<(Seq<char>, LocView)>,
    mods: Seq<(Seq<char>, LocView)>,
    g: GraphView,
    ex: Seq<Seq<char>>,
    depth: nat,
    fi: int,
)
    requires
        graph_ok(g),
        is_node_id(g, parent),
    ensures
        graph_ok(expand_files(name, parent, files, sym, mods, g, ex, depth, fi).0),
        grows(g, expand_files(name, parent, files, sym, mods, g, ex, depth, fi).0),
    decreases depth_measure(depth), files.len() - fi, 33nat,
{
    if !(fi < 0 || fi >= files.len() || depth > MAX_EXPANSION_DEPTH) {
        lemma_expand_calls_ok(name, parent, files, sym, mods, g, ex, depth, fi, 0);
        let (g2, ex2) = expand_calls(name, parent, files, sym, mods, g, ex, depth, fi, 0);
        lemma_grows_keeps_nodes(g, g2, parent);
        lemma_expand_files_ok(name, parent, files, sym, mods, g2, ex2, depth, fi + 1);
    }
}

proof fn lemma_expand_calls_ok(
    name: Seq<char>,
    parent: Seq<char>,
    files: Seq<FileAnalysis>,
    sym: Seq<(Seq<char>, LocView)>,
    mods: Seq<(Seq<char>, LocView)>,
    g: GraphView,
    ex: Seq<Seq<char>>,
    depth: nat,
    fi: int,
    ci: int,
)
    requires
        graph_ok(g),
        is_node_id(g, parent),
    ensures
        graph_ok(expand_calls(name, parent, files, sym, mods, g, ex, depth, fi, ci).0),
        grows(g, expand_calls(name, parent, files, sym, mods, g, ex, depth, fi, ci).0),
    decreases depth_measure(depth), files.len() - fi, owned_calls(files[fi], name).len() - ci,
{
    let calls = owned_calls(files[fi], name);
    if !(fi < 0 || fi >= files.len() || ci < 0 || ci >= calls.len() || depth > MAX_EXPANSION_DEPTH
        || is_full_spec(g)) {
        let call = calls[ci];
        match parse_prisma_call_spec(call.callee@) {
            Some((m, o, a)) => {
                let path = files[fi].path@;
                lemma_db_relation_ok(g, parent, path, call, m, o, a, mods);
                let g1 = db_relation_spec(g, parent, path, call, m, o, a, mods);
                lemma_grows_keeps_nodes(g, g1, parent);
                lemma_expand_calls_ok(name, parent, files, sym, mods, g1, ex, depth, fi, ci + 1);
            },
            None => match lookup_first(sym, call.callee@) {
                None => lemma_expand_calls_ok(
                    name,
                    parent,
                    files,
                    sym,
                    mods,
                    g,
                    ex,
                    depth,
                    fi,
                    ci + 1,
                ),
                Some(loc) => {
                    if !(loc.kind == SymbolKind::Method || loc.kind == SymbolKind::Function) {
                        lemma_expand_calls_ok(
                            name,
                            parent,
                            files,
                            sym,
                            mods,
                            g,
                            ex,
                            depth,
                            fi,
                            ci + 1,
                        );
                    } else {
                        let key = "symbol:"@ + call.callee@;
                        let detail = symbol_detail_spec(loc.kind);
                        let kind = if loc.kind == SymbolKind::Method {
                            ContractNodeKind::Service
                        } else {
                            ContractNodeKind::Helper
                        };
                        lemma_add_node_ok(
                            g,
                            key,
                            call.callee@,
                            detail,
                            kind,
                            Some(loc.file_path),
                            Some(loc.span),
                        );
                        let (g1, child) = add_node_spec(
                            g,
                            key,
                            call.callee@,
                            detail,
                            kind,
                            Some(loc.file_path),
                            Some(loc.span),
                        );
                        lemma_grows_keeps_nodes(g, g1, parent);
                        lemma_add_edge_ok(g1, parent, child, ContractEdgeKind::Invokes, "invokes"@);
                        let g2 = add_edge_spec(
                            g1,
                            parent,
                            child,
                            ContractEdgeKind::Invokes,
                            "invokes"@,
                        );
                        lemma_grows_keeps_nodes(g1, g2, child);
                        lemma_grows_keeps_nodes(g, g2, parent);
                        let (g3, ex3) = if depth + 1 > MAX_EXPANSION_DEPTH {
                            (g2, ex)
                        } else {
                            lemma_expand_ok(
                                call.callee@,
                                child,
                                files,
                                sym,
                                mods,
                                g2,
                                ex,
                                depth + 1,
                            );
                            expand_spec(call.callee@, child, files, sym, mods, g2, ex, depth + 1)
                        };
                        lemma_grows_keeps_nodes(g2, g3, parent);
                        lemma_expand_calls_ok(
                            name,
                            parent,
                            files,
                            sym,
                            mods,
                            g3,
                            ex3,
                            depth,
                            fi,
                            ci + 1,
                        );
                    }
                },
            },
        }
    }
}

proof fn lemma_call_steps_ok(
    g: GraphView,
    ex: Seq<Seq<char>>,
    origin: Seq<char>,
    calls: Seq<CallFact>,
    files: Seq<FileAnalysis>,
    sym: Seq<(Seq<char>, LocView)>,
    mods: Seq<(Seq<char>, LocView)>,
    i: int,
)
    requires
        graph_ok(g),
        is_node_id(g, origin),
    ensures
        graph_ok(call_steps(g, ex, origin, calls, files, sym, mods, i).0),
        grows(g, call_steps(g, ex, origin, calls, files, sym, mods, i).0),
    decreases calls.len() - i,
{
    if !(i < 0 || i >= calls.len() || is_full_spec(g)) {
        let callee = calls[i].callee@;
        match lookup_first(sym, callee) {
            None => lemma_call_steps_ok(g, ex, origin, calls, files, sym, mods, i + 1),
            Some(loc) => {
                let kind = if loc.kind == SymbolKind::Method || loc.kind == SymbolKind::Class {
                    ContractNodeKind::Service
                } else {
                    ContractNodeKind::Helper
                };
                let key = "symbol:"@ + callee;
                let detail = symbol_detail_spec(loc.kind);
                lemma_add_node_ok(g, key, callee, detail, kind, Some(loc.file_path), Some(loc.span));
                let (g1, id) = add_node_spec(
                    g,
                    key,
                    callee,
                    detail,
                    kind,
                    Some(loc.file_path),
                    Some(loc.span),
                );
                lemma_grows_keeps_nodes(g, g1, origin);
                lemma_add_edge_ok(g1, origin, id, ContractEdgeKind::Invokes, "invokes"@);
                let g2 = add_edge_spec(g1, origin, id, ContractEdgeKind::Invokes, "invokes"@);
                lemma_grows_keeps_nodes(g1, g2, id);
                lemma_grows_keeps_nodes(g, g2, origin);
                lemma_expand_ok(callee, id, files, sym, mods, g2, ex, 0);
                let (g3, ex3) = expand_spec(callee, id, files, sym, mods, g2, ex, 0);
                lemma_grows_keeps_nodes(g2, g3, origin);
                lemma_call_steps_ok(g3, ex3, origin, calls, files, sym, mods, i + 1);
            },
        }
    }
}

proof fn lemma_db_steps_ok(
    g: GraphView,
    origin: Seq<char>,
    file_path: Seq<char>,
    calls: Seq<CallFact>,
    mods: Seq<(Seq<char>, LocView)>,
    i: int,
)
    requires
        graph_ok(g),
        is_node_id(g, origin),
    ensures
        graph_ok(db_steps(g, origin, file_path, calls, mods, i)),
        grows(g, db_steps(g, origin, file_path, calls, mods, i)),
    decreases calls.len() - i,
{
    if 0 <= i < calls.len() {
        match parse_prisma_call_spec(calls[i].callee@) {
            Some((m, o, a)) => {
                lemma_db_relation_ok(g, origin, file_path, calls[i], m, o, a, mods);
                let g1 = db_relation_spec(g, origin, file_path, calls[i], m, o, a, mods);
                lemma_grows_keeps_nodes(g, g1, origin);
                lemma_db_steps_ok(g1, origin, file_path, calls, mods, i + 1);
            },
            None => lemma_db_steps_ok(g, origin, file_path, calls, mods, i + 1),
        }
    }
}

/// A contract never invents a relationship: each of its nodes is numbered
/// in the order it was added and names its file, and each edge joins two
/// distinct nodes of the same contract, with no two edges of one kind
/// between the same nodes in the same direction.
pub proof fn lemma_contract_graph_ok(
    file: FileAnalysis,
    route: RouteFact,
    files: Seq<FileAnalysis>,
    sym: Seq<(Seq<char>, LocView)>,
    mods: Seq<(Seq<char>, LocView)>,
)
    ensures
        graph_ok(contract_graph_spec(file, route, files, sym, mods)),
        contract_graph_spec(file, route, files, sym, mods).contract_id == route.id@,
{
    let g = empty_graph(route.id@);
    let label = endpoint_label(route);
    let detail = endpoint_detail(route);
    lemma_add_node_ok(
        g,
        "endpoint"@,
        label,
        detail,
        ContractNodeKind::Endpoint,
        Some(file.path@),
        Some(route.span),
    );
    let (g0, endpoint) = add_node_spec(
        g,
        "endpoint"@,
        label,
        detail,
        ContractNodeKind::Endpoint,
        Some(file.path@),
        Some(route.span),
    );
    let mws = first_n(route.middleware.deep_view(), 8);
    lemma_middleware_ok(g0, endpoint, file.path@, mws, route.handler_span, 0);
    let (g1, origin) = middleware_steps(g0, endpoint, file.path@, mws, route.handler_span, 0);
    lemma_grows_keeps_nodes(g0, g1, endpoint);
    let refs = first_n(route.schema_refs.deep_view(), 16);
    lemma_schema_ok(g1, endpoint, refs, sym, 0);
    let g2 = schema_steps(g1, endpoint, refs, sym, 0);
    lemma_grows_keeps_nodes(g1, g2, origin);
    let calls = first_n(meaningful_spec(route.calls@, sym), 12);
    lemma_call_steps_ok(g2, Seq::empty(), origin, calls, files, sym, mods, 0);
    let (g3, ex3) = call_steps(g2, Seq::empty(), origin, calls, files, sym, mods, 0);
    lemma_grows_keeps_nodes(g2, g3, origin);
    lemma_db_steps_ok(g3, origin, file.path@, route.calls@, mods, 0);
}

/// The contract of a route is well linked.
pub open spec fn contract_ok(c: ContractView) -> bool {
    well_linked(c.id, c.nodes, c.edges)
}

proof fn lemma_route_contracts_ok(
    file: FileAnalysis,
    n: int,
    files: Seq<FileAnalysis>,
    sym: Seq<(Seq<char>, LocView)>,
    mods: Seq<(Seq<char>, LocView)>,
)
    ensures
        forall|i: int|
            0 <= i < route_contracts(file, n, files, sym, mods).len() ==> contract_ok(
                #[trigger] route_contracts(file, n, files, sym, mods)[i],
            ),
    decreases n,
{
    if 0 < n <= file.routes@.len() {
        lemma_route_contracts_ok(file, n - 1, files, sym, mods);
        lemma_contract_graph_ok(file, file.routes@[n - 1], files, sym, mods);
        let prev = route_contracts(file, n - 1, files, sym, mods);
        let all = route_contracts(file, n, files, sym, mods);
        assert forall|i: int| 0 <= i < all.len() implies contract_ok(#[trigger] all[i]) by {
            if i < prev.len() {
                assert(all[i] == prev[i]);
            }
        }
    }
}

proof fn lemma_contracts_of_ok(
    prefix: Seq<FileAnalysis>,
    files: Seq<FileAnalysis>,
    sym: Seq<(Seq<char>, LocView)>,
    mods: Seq<(Seq<char>, LocView)>,
)
    ensures
        forall|i: int|
            0 <= i < contracts_of(prefix, files, sym, mods).len() ==> contract_ok(
                #[trigger] contracts_of(prefix, files, sym, mods)[i],
            ),
    decreases prefix.len(),
{
    if prefix.len() > 0 {
        lemma_contracts_of_ok(prefix.drop_last(), files, sym, mods);
        let last = prefix.last();
        lemma_route_contracts_ok(last, last.routes@.len() as int, files, sym, mods);
        let a = contracts_of(prefix.drop_last(), files, sym, mods);
        let b = route_contracts(last, last.routes@.len() as int, files, sym, mods);
        assert forall|i: int| 0 <= i < (a + b).len() implies contract_ok(#[trigger] (a + b)[i]) by {
            if i >= a.len() {
                assert((a + b)[i] == b[i - a.len()]);
            }
        }
    }
}

/// No contract of a report invents a relationship: in every one, nodes are
/// numbered in the order they were added and name the file they come from,
/// and every edge joins two distinct nodes of that contract, with no two
/// edges of one kind between the same nodes in the same direction.
pub proof fn lemma_contracts_well_linked(files: Seq<FileAnalysis>)
    ensures
        forall|i: int|
            0 <= i < contracts_spec(files).len() ==> contract_ok(#[trigger] contracts_spec(files)[i]),
{
    let sym = symbol_entries(files);
    let mods = model_entries(files);
    let all = contracts_of(files, files, sym, mods);
    let lt = |a: ContractView, b: ContractView| contract_lt(a, b);
    lemma_contracts_of_ok(files, files, sym, mods);
    lemma_sort_elements(all, lt);
    assert forall|i: int| 0 <= i < contracts_spec(files).len() implies contract_ok(
        #[trigger] contracts_spec(files)[i],
    ) by {
        let c = contracts_spec(files)[i];
        assert(all.contains(c));
        let j = choose|j: int| 0 <= j < all.len() && all[j] == c;
        assert(contract_ok(all[j]));
    }
}

proof fn lemma_contract_lt_strict_weak()
    ensures
        strict_weak(|a: ContractView, b: ContractView| contract_lt(a, b)),
{
    let lt = |a: ContractView, b: ContractView| contract_lt(a, b);
    assert forall|a: ContractView, b: ContractView| #[trigger] lt(a, b) implies !lt(b, a) by {
        lemma_seq_lt_order(a.path, b.path, a.path);
        lemma_seq_lt_order(a.method, b.method, a.method);
        lemma_seq_lt_order(a.file_path, b.file_path, a.file_path);
    }
    assert forall|a: ContractView, b: ContractView, c: ContractView|
        #![trigger lt(a, b), lt(b, c)]
        !lt(a, b) && !lt(b, c) implies !lt(a, c) by {
        lemma_seq_lt_order(a.path, b.path, c.path);
        lemma_seq_lt_order(c.path, b.path, a.path);
        lemma_seq_lt_order(b.path, a.path, c.path);
        lemma_seq_lt_order(a.method, b.method, c.method);
        lemma_seq_lt_order(c.method, b.method, a.method);
        lemma_seq_lt_order(b.method, a.method, c.method);
        lemma_seq_lt_order(a.file_path, b.file_path, c.file_path);
        lemma_seq_lt_order(c.file_path, b.file_path, a.file_path);
        lemma_seq_lt_order(b.file_path, a.file_path, c.file_path);
        lemma_seq_lt_order(a.path, c.path, b.path);
        lemma_seq_lt_order(a.method, c.method, b.method);
        lemma_seq_lt_order(a.file_path, c.file_path, b.file_path);
    }
}

/// The contracts of a report are ordered by path, then method, then file:
/// none comes strictly before an earlier one.
pub proof fn lemma_contracts_ordered(files: Seq<FileAnalysis>)
    ensures
        forall|i: int, j: int|
            0 <= i < j < contracts_spec(files).len() ==> !contract_lt(
                #[trigger] contracts_spec(files)[j],
                #[trigger] contracts_spec(files)[i],
            ),
{
    lemma_contract_lt_strict_weak();
    let all = contracts_of(files, files, symbol_entries(files), model_entries(files));
    lemma_sort_sorted(all, |a: ContractView, b: ContractView| contract_lt(a, b));
}

proof fn lemma_numbered_ids_distinct(prefix: Seq<char>, i: nat, j: nat)
    requires
        i != j,
    ensures
        prefix + decimal(i) != prefix + decimal(j),
{
    lemma_decimal_injective(i, j);
    if prefix + decimal(i) == prefix + decimal(j) {
        assert((prefix + decimal(i)).skip(prefix.len() as int) =~= decimal(i));
        assert((prefix + decimal(j)).skip(prefix.len() as int) =~= decimal(j));
    }
}

/// Within a contract no two nodes share an id, and no two edges do.
pub proof fn lemma_contract_ids_distinct(c: ContractView)
    requires
        contract_ok(c),
    ensures
        forall|i: int, j: int|
            0 <= i < j < c.nodes.len() ==> (#[trigger] c.nodes[i]).id != (#[trigger] c.nodes[j]).id,
        forall|i: int, j: int|
            0 <= i < j < c.edges.len() ==> (#[trigger] c.edges[i]).id != (#[trigger] c.edges[j]).id,
{
    assert forall|i: int, j: int| 0 <= i < j < c.nodes.len() implies (#[trigger] c.nodes[i]).id != (
    #[trigger] c.nodes[j]).id by {
        lemma_numbered_ids_distinct(c.id + ":node:"@, i as nat, j as nat);
        assert(c.id + ":node:"@ + decimal(i as nat) == node_id(c.id, i as nat));
        assert(c.id + ":node:"@ + decimal(j as nat) == node_id(c.id, j as nat));
    }
    assert forall|i: int, j: int| 0 <= i < j < c.edges.len() implies (#[trigger] c.edges[i]).id != (
    #[trigger] c.edges[j]).id by {
        lemma_numbered_ids_distinct(c.id + ":edge:"@, i as nat, j as nat);
        assert(c.id + ":edge:"@ + decimal(i as nat) == edge_id(c.id, i as nat));
        assert(c.id + ":edge:"@ + decimal(j as nat) == edge_id(c.id, j as nat));
    }
}

proof fn lemma_key_index_pushed(keys: Seq<Seq<char>>, key: Seq<char>, i: int)
    requires
        0 <= i <= keys.len(),
        key_index_from(keys, key, i) is None,
    ensures
        key_index_from(keys.push(key), key, i) == Some(keys.len() as int),
    decreases keys.len() - i,
{
    if i < keys.len() {
        lemma_key_index_pushed(keys, key, i + 1);
    }
}

/// Adding a node or an edge twice adds it once: a second node under the
/// same key gives the first one's id and leaves the graph as it was, and a
/// second edge between the same nodes with the same kind changes nothing.
pub proof fn lemma_adding_twice_adds_once(
    g: GraphView,
    key: Seq<char>,
    label: Seq<char>,
    detail: Seq<char>,
    kind: ContractNodeKind,
    file_path: Option<Seq<char>>,
    span: Option<SourceSpan>,
    source: Seq<char>,
    target: Seq<char>,
    edge_kind: ContractEdgeKind,
    edge_label: Seq<char>,
)
    requires
        g.keys.len() == g.nodes.len(),
    ensures
        ({
            let (g1, id) = add_node_spec(g, key, label, detail, kind, file_path, span);
            add_node_spec(g1, key, label, detail, kind, file_path, span) == (g1, id)
        }),
        ({
            let g1 = add_edge_spec(g, source, target, edge_kind, edge_label);
            add_edge_spec(g1, source, target, edge_kind, edge_label) == g1
        }),
{
    lemma_key_index(g.keys, key, 0);
    let (g1, id) = add_node_spec(g, key, label, detail, kind, file_path, span);
    if key_index_from(g.keys, key, 0) is None {
        lemma_key_index_pushed(g.keys, key, 0);
        assert(g1.keys == g.keys.push(key));
    }
    let e1 = add_edge_spec(g, source, target, edge_kind, edge_label);
    if !(source == target || has_edge(g.edges, source, target, edge_kind)) {
        let n = g.edges.len() as int;
        assert(e1.edges[n].source == source && e1.edges[n].target == target && e1.edges[n].kind
            == edge_kind);
        assert(has_edge(e1.edges, source, target, edge_kind));
    }
}

} // verus!
