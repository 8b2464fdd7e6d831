//! Facts of a TypeScript or JavaScript file: imports, declarations, calls
//! and Elysia routes, collected while its syntax tree is walked.
use vstd::prelude::*;

use crate::model::{
    opt_str, CallFact, FileAnalysis, FileMetrics, ParserDiagnostic, RouteFact, SourceSpan,
    SymbolFact, SymbolKind, SymbolView,
};
use crate::paths::{extension_of, known_file_name, name_extension};
use crate::sort::{
    lemma_sort_elements, lemma_sort_map, lemma_sort_multiset, lemma_sort_sorted, sorted_by, stable_sort, stable_sort_by,
    strict_weak,
};
use crate::relations::{copy_call, sort_by_start, start_lt};
use crate::text::{
    append, append_str, char_is_uppercase, chars_of, contains, contains_str, decimal, decimal_of,
    find, find_char, find_str, first_past, first_past_from, is, is_uppercase, join, join_with,
    lemma_chars_deep_view, lemma_find_bounds, lemma_seq_lt_order, lemma_utf8_len_bounds,
    lemma_utf8_len_concat, lemma_utf8_len_take, less, nondecreasing, same, seq_lt, slice_of,
    starts_with, starts_with_str, string_of, strip_ws, trim, trim_start, trim_start_of, trimmed,
    upper, uppered, utf8_len, utf8_len_of, without_ws,
};

verus! {

broadcast use lemma_chars_deep_view;

// ---------------------------------------------------------------------------
// Reading source excerpts
// ---------------------------------------------------------------------------

/// Source text without white space, as callees and middleware are named.
pub fn compact_source(source: &Vec<char>) -> (r: Vec<char>)
    ensures
        r@ == strip_ws(source@),
{
    without_ws(source)
}

/// Whether an initializer builds a TypeBox schema.
pub open spec fn looks_like_schema_spec(source: Seq<char>) -> bool {
    let s = trim_start(source);
    starts_with(s, "t."@) || contains(s, "t.Object("@) || contains(s, "t.Composite("@) || contains(
        s,
        "t.Union("@,
    ) || contains(s, "t.Array("@)
}

pub fn looks_like_schema(source: &Vec<char>) -> (r: bool)
    ensures
        r == looks_like_schema_spec(source@),
{
    let s = trim_start_of(source, false);
    starts_with_str(&s, "t.") || contains_str(&s, "t.Object(") || contains_str(&s, "t.Composite(")
        || contains_str(&s, "t.Union(") || contains_str(&s, "t.Array(")
}

/// The middleware of the `.use(...)` calls of a call chain, in order, each
/// without white space; empty names left out.
pub open spec fn chain_middleware_spec(s: Seq<char>) -> Seq<Seq<char>>
    decreases s.len(),
{
    match find(s, ".use("@) {
        None => Seq::empty(),
        Some(index) => {
            proof {
                lemma_find_bounds(s, ".use("@, 0);
            }
            let remaining = s.skip(index + ".use("@.len());
            match find(remaining, seq![')']) {
                None => Seq::empty(),
                Some(end) => {
                    proof {
                        lemma_find_bounds(remaining, seq![')'], 0);
                    }
                    let name = strip_ws(remaining.take(end));
                    let rest = remaining.skip(end + 1);
                    if name.len() > 0 {
                        seq![name] + chain_middleware_spec(rest)
                    } else {
                        chain_middleware_spec(rest)
                    }
                },
            }
        },
    }
}

pub fn extract_chain_middleware(source: &Vec<char>) -> (r: Vec<Vec<char>>)
    ensures
        r.deep_view() == chain_middleware_spec(source@),
{
    let mut middleware: Vec<Vec<char>> = Vec::new();
    let mut remaining = slice_of(source, 0, source.len());
    assert(remaining@ =~= source@);
    assert(middleware.deep_view() =~= Seq::<Seq<char>>::empty());
    let use_call = chars_of(".use(");
    loop
        invariant
            use_call@ == ".use("@,
            middleware.deep_view() + chain_middleware_spec(remaining@) == chain_middleware_spec(
                source@,
            ),
        decreases remaining.len(),
    {
        let index = match find_str(&remaining, ".use(") {
            Some(index) => index,
            None => {
                assert(chain_middleware_spec(remaining@) =~= Seq::<Seq<char>>::empty());
                assert(middleware.deep_view() + Seq::<Seq<char>>::empty()
                    == middleware.deep_view());
                return middleware;
            },
        };
        proof {
            lemma_find_bounds(remaining@, ".use("@, 0);
        }
        let after = slice_of(&remaining, index + use_call.len(), remaining.len());
        assert(after@ == remaining@.skip(index + ".use("@.len()));
        let end = match find_char(&after, ')') {
            Some(end) => end,
            None => {
                assert(chain_middleware_spec(remaining@) =~= Seq::<Seq<char>>::empty());
                assert(middleware.deep_view() + Seq::<Seq<char>>::empty()
                    == middleware.deep_view());
                return middleware;
            },
        };
        proof {
            lemma_find_bounds(after@, seq![')'], 0);
        }
        let name = compact_source(&slice_of(&after, 0, end));
        assert(after@.subrange(0, end as int) == after@.take(end as int));
        let rest = slice_of(&after, end + 1, after.len());
        assert(rest@ == after@.skip(end + 1));
        let ghost before = middleware.deep_view();
        if name.len() > 0 {
            let ghost nv = name@;
            middleware.push(name);
            assert(middleware.deep_view() =~= before.push(nv));
            assert(before + (seq![nv] + chain_middleware_spec(rest@)) == middleware.deep_view()
                + chain_middleware_spec(rest@));
        }
        remaining = rest;
    }
}

pub open spec fn is_summary_quote(c: char) -> bool {
    c == '\'' || c == '"' || c == '`'
}

/// The quoted value of the `summary` property in a route's options.
pub open spec fn summary_spec(s: Seq<char>) -> Option<Seq<char>> {
    match find(s, "summary"@) {
        None => None,
        Some(index) => {
            let after = s.skip(index + "summary"@.len());
            match find(after, seq![':']) {
                None => None,
                Some(colon) => {
                    let value = trim_start(after.skip(colon + 1));
                    if value.len() == 0 || !is_summary_quote(value[0]) {
                        None
                    } else {
                        let rest = value.drop_first();
                        match find(rest, seq![value[0]]) {
                            None => None,
                            Some(end) => Some(trim(rest.take(end))),
                        }
                    }
                },
            }
        },
    }
}

pub fn extract_summary(source: &Vec<char>) -> (r: Option<Vec<char>>)
    ensures
        r matches Some(x) ==> summary_spec(source@) == Some(x@),
        r is None ==> summary_spec(source@) is None,
{
    let summary = chars_of("summary");
    let index = match find_str(source, "summary") {
        Some(i) => i,
        None => return None,
    };
    proof {
        lemma_find_bounds(source@, "summary"@, 0);
    }
    assert(summary@ == "summary"@);
    assert(index + summary.len() <= source.len());
    let after = slice_of(source, index + summary.len(), source.len());
    assert(after@ == source@.skip(index + "summary"@.len()));
    let colon = match find_char(&after, ':') {
        Some(c) => c,
        None => return None,
    };
    proof {
        lemma_find_bounds(after@, seq![':'], 0);
    }
    let tail = slice_of(&after, colon + 1, after.len());
    assert(tail@ == after@.skip(colon + 1));
    let value = trim_start_of(&tail, false);
    if value.len() == 0 {
        return None;
    }
    let quote = value[0];
    if !(quote == '\'' || quote == '"' || quote == '`') {
        return None;
    }
    let rest = slice_of(&value, 1, value.len());
    assert(rest@ == value@.drop_first());
    let end = match find_char(&rest, quote) {
        Some(e) => e,
        None => return None,
    };
    proof {
        lemma_find_bounds(rest@, seq![quote], 0);
    }
    let inner = slice_of(&rest, 0, end);
    assert(inner@ == rest@.take(end as int));
    Some(trimmed(&inner))
}

// ---------------------------------------------------------------------------
// Offsets
// ---------------------------------------------------------------------------

/// The byte offset at which each character of `src` starts, and the length.
pub open spec fn char_starts_spec(src: Seq<char>) -> Seq<u32> {
    Seq::new((src.len() + 1) as nat, |k: int| utf8_len(src.take(k)) as u32)
}

/// The byte offsets at which the first `n` characters start lines: 0 and
/// each offset after a `\n`.
pub open spec fn line_starts_upto(src: Seq<char>, n: int) -> Seq<u32>
    decreases n,
{
    if n <= 0 || n > src.len() {
        seq![0u32]
    } else {
        let prev = line_starts_upto(src, n - 1);
        if src[n - 1] == '\n' {
            prev.push((utf8_len(src.take(n - 1)) + 1) as u32)
        } else {
            prev
        }
    }
}

pub open spec fn line_starts_spec(src: Seq<char>) -> Seq<u32> {
    line_starts_upto(src, src.len() as int)
}

/// The index of the character that starts at byte `b`, if one does.
pub open spec fn char_index(starts: Seq<u32>, b: u32) -> Option<int> {
    let k = first_past_from(starts, b, true, 0);
    if k < starts.len() && starts[k] == b {
        Some(k)
    } else {
        None
    }
}

/// The text between byte offsets `a` and `b`: `str::get(a..b)`, empty
/// where that is none.
pub open spec fn text_at(src: Seq<char>, starts: Seq<u32>, a: u32, b: u32) -> Seq<char> {
    match (char_index(starts, a), char_index(starts, b)) {
        (Some(i), Some(j)) => if i <= j && j <= src.len() {
            src.subrange(i, j)
        } else {
            Seq::empty()
        },
        _ => Seq::empty(),
    }
}

/// The 1-based line of byte `offset`: how many lines start at or before it.
pub open spec fn line_of(line_starts: Seq<u32>, offset: u32) -> u32 {
    first_past_from(line_starts, offset, false, 0) as u32
}

/// The span of bytes `start..end` with its first and last lines.
pub open spec fn span_of(line_starts: Seq<u32>, start: u32, end: u32) -> SourceSpan {
    SourceSpan {
        start: start,
        end: end,
        start_line: Some(line_of(line_starts, start)),
        end_line: Some(line_of(line_starts, if end > 0 { (end - 1) as u32 } else { 0 })),
    }
}

// ---------------------------------------------------------------------------
// The collector
// ---------------------------------------------------------------------------

/// The facts gathered so far, and the state of the walk: path prefixes and
/// middleware of the enclosing groups, the open routes, classes and owners.
#[verifier::ext_equal]
pub struct CollectorView {
    pub relative_path: Seq<char>,
    pub source: Seq<char>,
    pub imports: Seq<Seq<char>>,
    pub symbols: Seq<SymbolView>,
    pub calls: Seq<CallFact>,
    pub routes: Seq<RouteFact>,
    pub functions: usize,
    pub classes: usize,
    pub path_prefixes: Seq<Seq<char>>,
    pub middleware: Seq<Seq<char>>,
    pub route_stack: Seq<usize>,
    pub class_stack: Seq<Seq<char>>,
    pub owner_stack: Seq<Seq<char>>,
}

pub struct FactCollector {
    pub relative_path: Vec<char>,
    pub source: Vec<char>,
    pub char_starts: Vec<u32>,
    pub line_starts: Vec<u32>,
    pub imports: Vec<String>,
    pub symbols: Vec<SymbolFact>,
    pub calls: Vec<CallFact>,
    pub routes: Vec<RouteFact>,
    pub functions: usize,
    pub classes: usize,
    pub path_prefixes: Vec<Vec<char>>,
    pub middleware: Vec<Vec<char>>,
    pub route_stack: Vec<usize>,
    pub class_stack: Vec<Vec<char>>,
    pub owner_stack: Vec<Vec<char>>,
}

impl View for FactCollector {
    type V = CollectorView;

    open spec fn view(&self) -> CollectorView {
        CollectorView {
            relative_path: self.relative_path@,
            source: self.source@,
            imports: self.imports.deep_view(),
            symbols: self.symbols@.map_values(|s: SymbolFact| s@),
            calls: self.calls@,
            routes: self.routes@,
            functions: self.functions,
            classes: self.classes,
            path_prefixes: self.path_prefixes.deep_view(),
            middleware: self.middleware.deep_view(),
            route_stack: self.route_stack@,
            class_stack: self.class_stack.deep_view(),
            owner_stack: self.owner_stack.deep_view(),
        }
    }
}

/// The label of a symbol kind in symbol ids.
pub open spec fn symbol_kind_label(kind: SymbolKind) -> Seq<char> {
    match kind {
        SymbolKind::Function => "function"@,
        SymbolKind::Class => "class"@,
        SymbolKind::Method => "method"@,
        SymbolKind::Schema => "schema"@,
        SymbolKind::PrismaModel => "prisma-model"@,
        SymbolKind::PrismaEnum => "prisma-enum"@,
    }
}

fn symbol_kind_text(kind: SymbolKind) -> (r: &'static str)
    ensures
        r@ == symbol_kind_label(kind),
{
    match kind {
        SymbolKind::Function => "function",
        SymbolKind::Class => "class",
        SymbolKind::Method => "method",
        SymbolKind::Schema => "schema",
        SymbolKind::PrismaModel => "prisma-model",
        SymbolKind::PrismaEnum => "prisma-enum",
    }
}

/// The full path of a route: the enclosing group prefixes and the route's
/// own path, with a leading `/`.
pub open spec fn current_path_spec(prefixes: Seq<Seq<char>>, route_path: Seq<char>) -> Seq<char> {
    let path = join(prefixes, ""@) + route_path;
    if path.len() == 0 {
        "/"@
    } else if path[0] == '/' {
        path
    } else {
        "/"@ + path
    }
}

impl FactCollector {
    /// The byte tables agree with the source, which fits `u32` offsets,
    /// every open route exists, and every call of a route is one of the
    /// file's calls.
    pub open spec fn wf(&self) -> bool {
        &&& utf8_len(self.source@) < u32::MAX
        &&& self.char_starts@ == char_starts_spec(self.source@)
        &&& nondecreasing(self.char_starts@)
        &&& self.line_starts@ == line_starts_spec(self.source@)
        &&& nondecreasing(self.line_starts@)
        &&& self.line_starts@.len() <= u32::MAX
        &&& forall|i: int|
            0 <= i < self.route_stack@.len() ==> #[trigger] self.route_stack@[i]
                < self.routes@.len()
        &&& forall|i: int, k: int|
            0 <= i < self.routes@.len() && 0 <= k < self.routes@[i].calls@.len()
                ==> self.calls@.contains(#[trigger] self.routes@[i].calls@[k])
    }

    pub open spec fn span_spec(&self, start: u32, end: u32) -> SourceSpan {
        span_of(self.line_starts@, start, end)
    }

    pub open spec fn text_spec(&self, start: u32, end: u32) -> Seq<char> {
        text_at(self.source@, self.char_starts@, start, end)
    }

    /// The symbol that declaring `name` of `kind` at `start..end` records.
    pub open spec fn symbol_entry(&self, name: Seq<char>, kind: SymbolKind, start: u32, end: u32) -> SymbolView {
        SymbolView {
            id: "symbol:"@ + self.relative_path@ + ":"@ + symbol_kind_label(kind) + ":"@ + name
                + ":"@ + decimal(start as nat),
            name: name,
            kind: kind,
            span: self.span_spec(start, end),
        }
    }

    /// A collector for `source_text`, whose UTF-8 length must fit `u32`
    /// offsets, with nothing collected.
    pub fn new(relative_path: &str, source_text: &str) -> (r: FactCollector)
        requires
            utf8_len(source_text@) < u32::MAX,
        ensures
            r.wf(),
            r@ == (CollectorView {
                relative_path: relative_path@,
                source: source_text@,
                imports: Seq::empty(),
                symbols: Seq::empty(),
                calls: Seq::empty(),
                routes: Seq::empty(),
                functions: 0,
                classes: 0,
                path_prefixes: Seq::empty(),
                middleware: Seq::empty(),
                route_stack: Seq::empty(),
                class_stack: Seq::empty(),
                owner_stack: Seq::empty(),
            }),
    {
        let source = chars_of(source_text);
        let ghost src = source@;
        let mut char_starts: Vec<u32> = Vec::new();
        let mut line_starts: Vec<u32> = Vec::new();
        line_starts.push(0);
        let mut offset: u64 = 0;
        let mut k: usize = 0;
        proof {
            lemma_utf8_len_bounds(src);
        }
        while k < source.len()
            invariant
                k <= source.len(),
                src == source@,
                utf8_len(src) < u32::MAX,
                offset == utf8_len(src.take(k as int)),
                offset <= utf8_len(src),
                k <= offset,
                char_starts@ == char_starts_spec(src).take(k as int),
                nondecreasing(char_starts@),
                k > 0 ==> char_starts@.last() < offset,
                line_starts@ == line_starts_upto(src, k as int),
                nondecreasing(line_starts@),
                line_starts@.last() <= offset,
                line_starts@.len() <= k + 1,
            decreases source.len() - k,
        {
            proof {
                lemma_utf8_len_take(src, k as int);
                lemma_utf8_len_concat(src.take(k + 1), src.skip(k + 1));
                assert(src.take(k + 1) + src.skip(k + 1) =~= src);
            }
            char_starts.push(offset as u32);
            assert(char_starts@ =~= char_starts_spec(src).take(k + 1));
            let c = source[k];
            if c == '\n' {
                line_starts.push((offset + 1) as u32);
            }
            let u: u32 = c as u32;
            let w: u64 = if u < 0x80 {
                1
            } else if u < 0x800 {
                2
            } else if u < 0x10000 {
                3
            } else {
                4
            };
            offset = offset + w;
            k += 1;
        }
        proof {
            assert(src.take(k as int) =~= src);
        }
        char_starts.push(offset as u32);
        assert(char_starts@ =~= char_starts_spec(src));
        FactCollector {
            relative_path: chars_of(relative_path),
            source,
            char_starts,
            line_starts,
            imports: Vec::new(),
            symbols: Vec::new(),
            calls: Vec::new(),
            routes: Vec::new(),
            functions: 0,
            classes: 0,
            path_prefixes: Vec::new(),
            middleware: Vec::new(),
            route_stack: Vec::new(),
            class_stack: Vec::new(),
            owner_stack: Vec::new(),
        }
    }

    /// The 1-based line of byte `offset`.
    pub fn line_for_offset(&self, offset: u32) -> (r: u32)
        requires
            self.wf(),
        ensures
            r == line_of(self.line_starts@, offset),
    {
        first_past(&self.line_starts, offset, false) as u32
    }

    /// The span of bytes `start..end` with its lines.
    pub fn source_span(&self, start: u32, end: u32) -> (r: SourceSpan)
        requires
            self.wf(),
        ensures
            r == self.span_spec(start, end),
    {
        SourceSpan {
            start,
            end,
            start_line: Some(self.line_for_offset(start)),
            end_line: Some(self.line_for_offset(if end > 0 { end - 1 } else { 0 })),
        }
    }

    fn char_at_byte(&self, b: u32) -> (r: Option<usize>)
        requires
            self.wf(),
        ensures
            r matches Some(k) ==> char_index(self.char_starts@, b) == Some(k as int),
            r is None ==> char_index(self.char_starts@, b) is None,
    {
        let k = first_past(&self.char_starts, b, true);
        if k < self.char_starts.len() && self.char_starts[k] == b {
            Some(k)
        } else {
            None
        }
    }

    /// The source text of bytes `start..end`; empty unless both are
    /// character boundaries in order.
    pub fn source_slice(&self, start: u32, end: u32) -> (r: Vec<char>)
        requires
            self.wf(),
        ensures
            r@ == self.text_spec(start, end),
    {
        match (self.char_at_byte(start), self.char_at_byte(end)) {
            (Some(i), Some(j)) => {
                if i <= j && j <= self.source.len() {
                    slice_of(&self.source, i, j)
                } else {
                    Vec::new()
                }
            },
            _ => Vec::new(),
        }
    }

    /// The full path of a route declared as `route_path` here.
    pub fn current_path(&self, route_path: &Vec<char>) -> (r: Vec<char>)
        ensures
            r@ == current_path_spec(self@.path_prefixes, route_path@),
    {
        let mut path = join_with(&self.path_prefixes, "");
        append(&mut path, route_path);
        if path.len() == 0 {
            chars_of("/")
        } else if path[0] == '/' {
            path
        } else {
            let mut r = chars_of("/");
            append(&mut r, &path);
            r
        }
    }

    /// Records a declaration of `name` spanning `start..end`.
    pub fn add_symbol(&mut self, name: &Vec<char>, kind: SymbolKind, start: u32, end: u32)
        requires
            old(self).wf(),
        ensures
            final(self).wf(),
            final(self)@ == (CollectorView {
                symbols: old(self)@.symbols.push(old(self).symbol_entry(name@, kind, start, end)),
                ..old(self)@
            }),
    {
        let mut id = chars_of("symbol:");
        append(&mut id, &self.relative_path);
        append_str(&mut id, ":");
        append_str(&mut id, symbol_kind_text(kind));
        append_str(&mut id, ":");
        append(&mut id, name);
        append_str(&mut id, ":");
        append(&mut id, &decimal_of(start as u64));
        let span = self.source_span(start, end);
        let symbol = SymbolFact { id: string_of(&id), name: string_of(name), kind, span };
        let ghost before = self@.symbols;
        let ghost sv = symbol@;
        self.symbols.push(symbol);
        assert(self@.symbols =~= before.push(sv));
    }
}

// ---------------------------------------------------------------------------
// Calls and routes
// ---------------------------------------------------------------------------

/// The innermost named function or method, if any.
pub open spec fn current_owner(v: CollectorView) -> Option<Seq<char>> {
    if v.owner_stack.len() > 0 {
        Some(v.owner_stack.last())
    } else {
        None
    }
}

/// `c` is the call fact for `callee`, written as `expression`, made at `span`.
pub open spec fn is_call_fact(
    c: CallFact,
    v: CollectorView,
    callee: Seq<char>,
    expression: Seq<char>,
    span: SourceSpan,
) -> bool {
    &&& c.id@ == "call:"@ + v.relative_path + ":"@ + decimal(span.start as nat) + ":"@ + callee
    &&& c.callee@ == callee
    &&& c.expression@ == expression
    &&& opt_str(c.owner) == current_owner(v)
    &&& c.span == span
}

/// `b` is route `a` with `c` added to its calls.
pub open spec fn route_with_call(a: RouteFact, b: RouteFact, c: CallFact) -> bool {
    &&& b.id == a.id
    &&& b.method == a.method
    &&& b.path == a.path
    &&& b.summary == a.summary
    &&& b.span == a.span
    &&& b.handler_span == a.handler_span
    &&& b.middleware@ == a.middleware@
    &&& b.schema_refs@ == a.schema_refs@
    &&& b.calls@ == a.calls@.push(c)
}

/// `b` is route `a` with `name` added to its schema references.
pub open spec fn route_with_ref(a: RouteFact, b: RouteFact, name: Seq<char>) -> bool {
    &&& b.id == a.id
    &&& b.method == a.method
    &&& b.path == a.path
    &&& b.summary == a.summary
    &&& b.span == a.span
    &&& b.handler_span == a.handler_span
    &&& b.middleware@ == a.middleware@
    &&& b.schema_refs.deep_view() == a.schema_refs.deep_view().push(name)
    &&& b.calls@ == a.calls@
}

/// `new` is `old` with route `i` changed as `step` says and every other
/// route unchanged.
pub open spec fn routes_changed_at(
    old: Seq<RouteFact>,
    new: Seq<RouteFact>,
    i: int,
    step: spec_fn(RouteFact, RouteFact) -> bool,
) -> bool {
    &&& new.len() == old.len()
    &&& 0 <= i < old.len()
    &&& step(old[i], new[i])
    &&& forall|j: int| 0 <= j < old.len() && j != i ==> new[j] == old[j]
}

/// What recording a call of `callee` written as `expression` at `span`
/// does: nothing for an empty callee; otherwise the call is added to the
/// file's calls and to the innermost open route's.
pub open spec fn call_added(
    old: CollectorView,
    new: CollectorView,
    callee: Seq<char>,
    expression: Seq<char>,
    span: SourceSpan,
) -> bool {
    if callee.len() == 0 {
        new == old
    } else {
        &&& new.calls.len() == old.calls.len() + 1
        &&& new.calls.drop_last() == old.calls
        &&& is_call_fact(new.calls.last(), old, callee, expression, span)
        &&& if old.route_stack.len() > 0 {
            routes_changed_at(
                old.routes,
                new.routes,
                old.route_stack.last() as int,
                |a: RouteFact, b: RouteFact| route_with_call(a, b, new.calls.last()),
            )
        } else {
            new.routes == old.routes
        }
        &&& new == CollectorView { calls: new.calls, routes: new.routes, ..old }
    }
}

/// `r` is the route declared by `method` and `path` in the current groups.
pub open spec fn is_new_route(
    r: RouteFact,
    v: CollectorView,
    method: Seq<char>,
    path: Seq<char>,
    route_start: u32,
    span: SourceSpan,
    handler_span: Option<SourceSpan>,
    summary: Option<Seq<char>>,
) -> bool {
    let full = current_path_spec(v.path_prefixes, path);
    &&& r.id@ == "contract:"@ + v.relative_path + ":"@ + method + ":"@ + full + ":"@ + decimal(
        route_start as nat,
    )
    &&& r.method@ == upper(method)
    &&& r.path@ == full
    &&& opt_str(r.summary) == summary
    &&& r.span == span
    &&& r.handler_span == handler_span
    &&& r.middleware.deep_view() == v.middleware
    &&& r.schema_refs@.len() == 0
    &&& r.calls@.len() == 0
}

fn copy_opt_chars_string(o: &Option<Vec<char>>) -> (r: Option<String>)
    ensures
        opt_str(r) == (match o {
            Some(v) => Some(v@),
            None => None,
        }),
{
    match o {
        Some(v) => Some(string_of(v)),
        None => None,
    }
}

fn strings_from(v: &Vec<Vec<char>>) -> (r: Vec<String>)
    ensures
        r.deep_view() == v.deep_view(),
{
    let mut r: Vec<String> = Vec::new();
    let mut i: usize = 0;
    while i < v.len()
        invariant
            i <= v.len(),
            r.deep_view() == v.deep_view().take(i as int),
        decreases v.len() - i,
    {
        let ghost before = r.deep_view();
        r.push(string_of(&v[i]));
        assert(r.deep_view() =~= before.push(v[i as int]@));
        assert(v.deep_view().take(i + 1) =~= v.deep_view().take(i as int).push(v[i as int]@));
        i += 1;
    }
    assert(v.deep_view().take(v.len() as int) =~= v.deep_view());
    r
}

impl FactCollector {
    /// Records the call at `call_start..call_end` whose callee is the text at
    /// `callee_start..callee_end`.
    pub fn add_call(&mut self, callee_start: u32, callee_end: u32, call_start: u32, call_end: u32)
        requires
            old(self).wf(),
        ensures
            final(self).wf(),
            call_added(
                old(self)@,
                final(self)@,
                strip_ws(old(self).text_spec(callee_start, callee_end)),
                trim(old(self).text_spec(call_start, call_end)),
                old(self).span_spec(call_start, call_end),
            ),
    {
        let callee = compact_source(&self.source_slice(callee_start, callee_end));
        if callee.len() == 0 {
            return;
        }
        let mut id = chars_of("call:");
        append(&mut id, &self.relative_path);
        append_str(&mut id, ":");
        append(&mut id, &decimal_of(call_start as u64));
        append_str(&mut id, ":");
        append(&mut id, &callee);
        let expression = trimmed(&self.source_slice(call_start, call_end));
        let owner = if self.owner_stack.len() > 0 {
            Some(string_of(&self.owner_stack[self.owner_stack.len() - 1]))
        } else {
            None
        };
        let fact = CallFact {
            id: string_of(&id),
            callee: string_of(&callee),
            expression: string_of(&expression),
            owner,
            span: self.source_span(call_start, call_end),
        };
        let ghost old_view = self@;
        self.calls.push(copy_call(&fact));
        assert(self@.calls.drop_last() =~= old_view.calls);
        if self.route_stack.len() > 0 {
            let index = self.route_stack[self.route_stack.len() - 1];
            let mut route = self.routes.remove(index);
            let ghost old_route = route;
            route.calls.push(fact);
            self.routes.insert(index, route);
            assert(routes_changed_at(
                old_view.routes,
                self@.routes,
                index as int,
                |a: RouteFact, b: RouteFact| route_with_call(a, b, self@.calls.last()),
            ));
        }
        assert(self@ =~= CollectorView { calls: self@.calls, routes: self@.routes, ..old_view });
    }

    /// Opens the route that `method` and `path` declare: its span runs from
    /// `route_start` to `call_end`; the second argument is its handler and
    /// the third its options. Returns the route's index.
    pub fn begin_route(
        &mut self,
        method: &Vec<char>,
        path: &Vec<char>,
        route_start: u32,
        call_end: u32,
        handler: Option<(u32, u32)>,
        options: Option<(u32, u32)>,
    ) -> (index: usize)
        requires
            old(self).wf(),
        ensures
            final(self).wf(),
            index == old(self)@.routes.len(),
            final(self)@.routes.len() == old(self)@.routes.len() + 1,
            final(self)@.routes.drop_last() == old(self)@.routes,
            is_new_route(
                final(self)@.routes.last(),
                old(self)@,
                method@,
                path@,
                route_start,
                old(self).span_spec(route_start, call_end),
                match handler {
                    Some((a, b)) => Some(old(self).span_spec(a, b)),
                    None => None,
                },
                match options {
                    Some((a, b)) => summary_spec(old(self).text_spec(a, b)),
                    None => None,
                },
            ),
            final(self)@ == (CollectorView { routes: final(self)@.routes, ..old(self)@ }),
    {
        let full_path = self.current_path(path);
        let route_span = self.source_span(route_start, call_end);
        let handler_span = match handler {
            Some((a, b)) => Some(self.source_span(a, b)),
            None => None,
        };
        let summary = match options {
            Some((a, b)) => extract_summary(&self.source_slice(a, b)),
            None => None,
        };
        let mut id = chars_of("contract:");
        append(&mut id, &self.relative_path);
        append_str(&mut id, ":");
        append(&mut id, method);
        append_str(&mut id, ":");
        append(&mut id, &full_path);
        append_str(&mut id, ":");
        append(&mut id, &decimal_of(route_start as u64));
        let index = self.routes.len();
        let route = RouteFact {
            id: string_of(&id),
            method: string_of(&uppered(method)),
            path: string_of(&full_path),
            summary: copy_opt_chars_string(&summary),
            span: route_span,
            handler_span,
            middleware: strings_from(&self.middleware),
            schema_refs: Vec::new(),
            calls: Vec::new(),
        };
        let ghost old_view = self@;
        self.routes.push(route);
        assert(self@.routes.drop_last() =~= old_view.routes);
        assert(self@ =~= CollectorView { routes: self@.routes, ..old_view });
        index
    }
}

// ---------------------------------------------------------------------------
// Walking the syntax tree
// ---------------------------------------------------------------------------

/// What a call expression is to the walk.
#[derive(Debug, Clone, Copy, PartialEq, Eq, Structural)]
pub enum CallAction {
    /// `x.group(...)`: a path prefix and the chain's middleware apply inside.
    Group,
    /// `x.use(...)`: the first argument guards what follows inside.
    Use,
    /// `x.get("/path", ...)` and the other methods: a route.
    Route,
    /// Any other call, recorded as a call.
    Plain,
}

pub open spec fn is_route_method(method: Seq<char>) -> bool {
    method == "get"@ || method == "post"@ || method == "put"@ || method == "patch"@ || method
        == "delete"@
}

/// How a call is treated: by the property it calls on an object
/// (`member`, when the callee is `object.property`) and whether its first
/// argument is a string literal.
pub open spec fn call_action_spec(member: Option<Seq<char>>, static_path: bool) -> CallAction {
    match member {
        None => CallAction::Plain,
        Some(method) => if method == "group"@ {
            CallAction::Group
        } else if method == "use"@ {
            CallAction::Use
        } else if static_path && is_route_method(method) {
            CallAction::Route
        } else {
            CallAction::Plain
        },
    }
}

pub fn classify_call(member: Option<&str>, static_path: bool) -> (r: CallAction)
    ensures
        r == call_action_spec(
            match member {
                Some(m) => Some(m@),
                None => None,
            },
            static_path,
        ),
{
    match member {
        None => CallAction::Plain,
        Some(m) => {
            let method = chars_of(m);
            if is(&method, "group") {
                CallAction::Group
            } else if is(&method, "use") {
                CallAction::Use
            } else if static_path && (is(&method, "get") || is(&method, "post") || is(
                &method,
                "put",
            ) || is(&method, "patch") || is(&method, "delete")) {
                CallAction::Route
            } else {
                CallAction::Plain
            }
        },
    }
}

/// `s` without its last element, or `s` where it is empty: `Vec::pop`.
pub open spec fn popped<A>(s: Seq<A>) -> Seq<A> {
    if s.len() > 0 {
        s.drop_last()
    } else {
        s
    }
}

impl FactCollector {
    /// An `import ... from "source"`.
    pub fn import_declaration(&mut self, source: &str)
        ensures
            final(self)@ == (CollectorView { imports: old(self)@.imports.push(source@), ..old(self)@ }),
            final(self).wf() == old(self).wf(),
    {
        let ghost before = self@.imports;
        self.imports.push(source.to_string());
        assert(self@.imports =~= before.push(source@));
        assert(self@ =~= CollectorView { imports: before.push(source@), ..old(self)@ });
    }

    /// Enters a function spanning `start..end`, named or anonymous. A named
    /// one is declared and owns the calls inside it. Returns whether an
    /// owner was pushed, which `exit_function` takes back.
    pub fn enter_function(&mut self, name: Option<&str>, start: u32, end: u32) -> (pushed: bool)
        requires
            old(self).wf(),
            old(self).functions < usize::MAX,
        ensures
            final(self).wf(),
            pushed == name.is_some(),
            final(self)@ == (match name {
                None => CollectorView { functions: (old(self)@.functions + 1) as usize, ..old(self)@ },
                Some(n) => CollectorView {
                    functions: (old(self)@.functions + 1) as usize,
                    symbols: old(self)@.symbols.push(
                        old(self).symbol_entry(n@, SymbolKind::Function, start, end),
                    ),
                    owner_stack: old(self)@.owner_stack.push(n@),
                    ..old(self)@
                },
            }),
    {
        self.functions = self.functions + 1;
        match name {
            None => false,
            Some(n) => {
                let name = chars_of(n);
                self.add_symbol(&name, SymbolKind::Function, start, end);
                let ghost before = self@.owner_stack;
                self.owner_stack.push(name);
                assert(self@.owner_stack =~= before.push(n@));
                true
            },
        }
    }

    /// Leaves a function; `pushed` is what `enter_function` returned.
    pub fn exit_function(&mut self, pushed: bool)
        requires
            old(self).wf(),
        ensures
            final(self).wf(),
            final(self)@ == (if pushed {
                CollectorView { owner_stack: popped(old(self)@.owner_stack), ..old(self)@ }
            } else {
                old(self)@
            }),
    {
        if pushed {
            self.pop_owner();
        }
    }

    fn pop_owner(&mut self)
        requires
            old(self).wf(),
        ensures
            final(self).wf(),
            final(self)@ == (CollectorView { owner_stack: popped(old(self)@.owner_stack), ..old(self)@ }),
    {
        let ghost before = self@.owner_stack;
        if self.owner_stack.len() > 0 {
            self.owner_stack.pop();
            assert(self@.owner_stack =~= before.drop_last());
        }
        assert(self@ =~= CollectorView { owner_stack: popped(before), ..old(self)@ });
    }

    /// Enters a class spanning `start..end`; a named one is declared and
    /// qualifies the methods inside it. Returns whether it was named, which
    /// `exit_class` takes back.
    pub fn enter_class(&mut self, name: Option<&str>, start: u32, end: u32) -> (named: bool)
        requires
            old(self).wf(),
            old(self).classes < usize::MAX,
        ensures
            final(self).wf(),
            named == name.is_some(),
            final(self)@ == (match name {
                None => CollectorView { classes: (old(self)@.classes + 1) as usize, ..old(self)@ },
                Some(n) => CollectorView {
                    classes: (old(self)@.classes + 1) as usize,
                    symbols: old(self)@.symbols.push(
                        old(self).symbol_entry(n@, SymbolKind::Class, start, end),
                    ),
                    class_stack: old(self)@.class_stack.push(n@),
                    ..old(self)@
                },
            }),
    {
        self.classes = self.classes + 1;
        match name {
            None => false,
            Some(n) => {
                let name = chars_of(n);
                self.add_symbol(&name, SymbolKind::Class, start, end);
                let ghost before = self@.class_stack;
                self.class_stack.push(name);
                assert(self@.class_stack =~= before.push(n@));
                true
            },
        }
    }

    /// Leaves a class; `named` is what `enter_class` returned.
    pub fn exit_class(&mut self, named: bool)
        requires
            old(self).wf(),
        ensures
            final(self).wf(),
            final(self)@ == (if named {
                CollectorView { class_stack: popped(old(self)@.class_stack), ..old(self)@ }
            } else {
                old(self)@
            }),
    {
        if named {
            let ghost before = self@.class_stack;
            if self.class_stack.len() > 0 {
                self.class_stack.pop();
                assert(self@.class_stack =~= before.drop_last());
            }
            assert(self@ =~= CollectorView { class_stack: popped(before), ..old(self)@ });
        }
    }
}

/// A method's name qualified by the innermost class: `Class.method`.
pub open spec fn qualified_method(class_stack: Seq<Seq<char>>, method: Seq<char>) -> Seq<char> {
    if class_stack.len() > 0 {
        class_stack.last() + "."@ + method
    } else {
        method
    }
}

/// Whether `name` starts with an upper-case letter, as schema names do.
pub open spec fn starts_upper(name: Seq<char>) -> bool {
    name.len() > 0 && char_is_uppercase(name[0])
}

impl FactCollector {
    /// Enters a method spanning `start..end` whose key has the static name
    /// `name`, if it has one. A named method is declared under its qualified
    /// name and owns the calls inside it. Returns whether an owner was
    /// pushed, which `exit_method` takes back.
    pub fn enter_method(&mut self, name: Option<&str>, start: u32, end: u32) -> (pushed: bool)
        requires
            old(self).wf(),
        ensures
            final(self).wf(),
            pushed == name.is_some(),
            final(self)@ == (match name {
                None => old(self)@,
                Some(n) => CollectorView {
                    symbols: old(self)@.symbols.push(
                        old(self).symbol_entry(
                            qualified_method(old(self)@.class_stack, n@),
                            SymbolKind::Method,
                            start,
                            end,
                        ),
                    ),
                    owner_stack: old(self)@.owner_stack.push(
                        qualified_method(old(self)@.class_stack, n@),
                    ),
                    ..old(self)@
                },
            }),
    {
        match name {
            None => false,
            Some(n) => {
                let method = chars_of(n);
                let qualified = if self.class_stack.len() > 0 {
                    let mut q = slice_of(
                        &self.class_stack[self.class_stack.len() - 1],
                        0,
                        self.class_stack[self.class_stack.len() - 1].len(),
                    );
                    append_str(&mut q, ".");
                    append(&mut q, &method);
                    q
                } else {
                    method
                };
                assert(qualified@ == qualified_method(self@.class_stack, n@));
                self.add_symbol(&qualified, SymbolKind::Method, start, end);
                let ghost before = self@.owner_stack;
                let ghost q = qualified@;
                self.owner_stack.push(qualified);
                assert(self@.owner_stack =~= before.push(q));
                true
            },
        }
    }

    /// Leaves a method; `pushed` is what `enter_method` returned.
    pub fn exit_method(&mut self, pushed: bool)
        requires
            old(self).wf(),
        ensures
            final(self).wf(),
            final(self)@ == (if pushed {
                CollectorView { owner_stack: popped(old(self)@.owner_stack), ..old(self)@ }
            } else {
                old(self)@
            }),
    {
        if pushed {
            self.pop_owner();
        }
    }

    /// A declarator `name = initializer` spanning `start..end`, the
    /// initializer at `init_start..init_end`: declared as a schema when the
    /// initializer builds one.
    pub fn variable_declarator(
        &mut self,
        name: &str,
        init_start: u32,
        init_end: u32,
        start: u32,
        end: u32,
    )
        requires
            old(self).wf(),
        ensures
            final(self).wf(),
            final(self)@ == (if looks_like_schema_spec(old(self).text_spec(init_start, init_end)) {
                CollectorView {
                    symbols: old(self)@.symbols.push(
                        old(self).symbol_entry(name@, SymbolKind::Schema, start, end),
                    ),
                    ..old(self)@
                }
            } else {
                old(self)@
            }),
    {
        let initializer = self.source_slice(init_start, init_end);
        if looks_like_schema(&initializer) {
            let name = chars_of(name);
            self.add_symbol(&name, SymbolKind::Schema, start, end);
        }
    }

    /// An identifier read inside a route: one that starts with an upper-case
    /// letter is taken for a schema the route refers to.
    pub fn identifier_reference(&mut self, name: &str)
        requires
            old(self).wf(),
        ensures
            final(self).wf(),
            if old(self)@.route_stack.len() > 0 && starts_upper(name@) {
                &&& routes_changed_at(
                    old(self)@.routes,
                    final(self)@.routes,
                    old(self)@.route_stack.last() as int,
                    |a: RouteFact, b: RouteFact| route_with_ref(a, b, name@),
                )
                &&& final(self)@ == (CollectorView { routes: final(self)@.routes, ..old(self)@ })
            } else {
                final(self)@ == old(self)@
            },
    {
        if self.route_stack.len() == 0 {
            return;
        }
        let chars = chars_of(name);
        if chars.len() == 0 || !is_uppercase(chars[0]) {
            return;
        }
        let ghost old_view = self@;
        let index = self.route_stack[self.route_stack.len() - 1];
        let mut route = self.routes.remove(index);
        let ghost before = route.schema_refs.deep_view();
        route.schema_refs.push(name.to_string());
        assert(route.schema_refs.deep_view() =~= before.push(name@));
        self.routes.insert(index, route);
        assert(routes_changed_at(
            old_view.routes,
            self@.routes,
            index as int,
            |a: RouteFact, b: RouteFact| route_with_ref(a, b, name@),
        ));
        assert(self@ =~= CollectorView { routes: self@.routes, ..old_view });
    }
}

/// The name that `.use(argument)` adds: the argument without white space.
pub open spec fn use_name(text: Option<Seq<char>>) -> Seq<char> {
    match text {
        Some(t) => strip_ws(t),
        None => Seq::empty(),
    }
}

/// What remains of `s` after `truncate(len - added)`, the subtraction
/// saturating at zero.
pub open spec fn without_last(s: Seq<Seq<char>>, added: usize) -> Seq<Seq<char>> {
    if added <= s.len() {
        s.take(s.len() - added)
    } else {
        s.take(0)
    }
}

impl FactCollector {
    /// Enters `x.group(path, ...)`, whose callee is at
    /// `callee_start..callee_end`: `path` (empty where the first argument is
    /// no string literal) prefixes the routes inside, and the middleware of
    /// the callee's `.use(...)` chain guards them. Returns how many
    /// middleware were added, which `exit_group` takes back.
    pub fn enter_group(&mut self, path: &str, callee_start: u32, callee_end: u32) -> (added: usize)
        requires
            old(self).wf(),
        ensures
            final(self).wf(),
            added == chain_middleware_spec(old(self).text_spec(callee_start, callee_end)).len(),
            final(self)@ == (CollectorView {
                middleware: old(self)@.middleware + chain_middleware_spec(
                    old(self).text_spec(callee_start, callee_end),
                ),
                path_prefixes: old(self)@.path_prefixes.push(path@),
                ..old(self)@
            }),
    {
        let chain = extract_chain_middleware(&self.source_slice(callee_start, callee_end));
        let ghost cv = chain.deep_view();
        let added = chain.len();
        let ghost m0 = self@.middleware;
        let mut i: usize = 0;
        while i < chain.len()
            invariant
                i <= chain.len(),
                cv == chain.deep_view(),
                self.wf(),
                self@ == (CollectorView { middleware: m0 + cv.take(i as int), ..old(self)@ }),
            decreases chain.len() - i,
        {
            let ghost before = self@.middleware;
            let item = slice_of(&chain[i], 0, chain[i].len());
            assert(item@ =~= cv[i as int]);
            self.middleware.push(item);
            assert(self@.middleware =~= before.push(cv[i as int]));
            assert(m0 + cv.take(i + 1) =~= (m0 + cv.take(i as int)).push(cv[i as int]));
            i += 1;
        }
        assert(cv.take(chain.len() as int) =~= cv);
        let ghost before = self@.path_prefixes;
        self.path_prefixes.push(chars_of(path));
        assert(self@.path_prefixes =~= before.push(path@));
        assert(self@ =~= CollectorView {
            middleware: m0 + cv,
            path_prefixes: before.push(path@),
            ..old(self)@
        });
        added
    }

    /// Leaves a group; `added` is what `enter_group` returned.
    pub fn exit_group(&mut self, added: usize)
        requires
            old(self).wf(),
        ensures
            final(self).wf(),
            final(self)@ == (CollectorView {
                path_prefixes: popped(old(self)@.path_prefixes),
                middleware: without_last(old(self)@.middleware, added),
                ..old(self)@
            }),
    {
        let ghost p0 = self@.path_prefixes;
        if self.path_prefixes.len() > 0 {
            self.path_prefixes.pop();
            assert(self@.path_prefixes =~= p0.drop_last());
        }
        let keep = if added <= self.middleware.len() {
            self.middleware.len() - added
        } else {
            0
        };
        let ghost m0 = self@.middleware;
        self.middleware.truncate(keep);
        assert(self@.middleware =~= without_last(m0, added));
        assert(self@ =~= CollectorView {
            path_prefixes: popped(p0),
            middleware: without_last(m0, added),
            ..old(self)@
        });
    }

    /// Enters `x.use(argument, ...)`, the first argument at the given span if
    /// there is one: its source, without white space, guards what follows
    /// inside unless it is empty. Returns whether it was added, which
    /// `exit_use` takes back.
    pub fn enter_use(&mut self, argument: Option<(u32, u32)>) -> (pushed: bool)
        requires
            old(self).wf(),
        ensures
            final(self).wf(),
            ({
                let name = use_name(
                    match argument {
                        Some((a, b)) => Some(old(self).text_spec(a, b)),
                        None => None,
                    },
                );
                &&& pushed == (name.len() > 0)
                &&& final(self)@ == (if pushed {
                    CollectorView { middleware: old(self)@.middleware.push(name), ..old(self)@ }
                } else {
                    old(self)@
                })
            }),
    {
        let (a, b) = match argument {
            Some(span) => span,
            None => return false,
        };
        let name = compact_source(&self.source_slice(a, b));
        if name.len() == 0 {
            return false;
        }
        let ghost before = self@.middleware;
        let ghost nv = name@;
        self.middleware.push(name);
        assert(self@.middleware =~= before.push(nv));
        assert(self@ =~= CollectorView { middleware: before.push(nv), ..old(self)@ });
        true
    }

    /// Leaves a `.use(...)` call; `pushed` is what `enter_use` returned.
    pub fn exit_use(&mut self, pushed: bool)
        requires
            old(self).wf(),
        ensures
            final(self).wf(),
            final(self)@ == (if pushed {
                CollectorView { middleware: popped(old(self)@.middleware), ..old(self)@ }
            } else {
                old(self)@
            }),
    {
        if pushed {
            let ghost before = self@.middleware;
            if self.middleware.len() > 0 {
                self.middleware.pop();
                assert(self@.middleware =~= before.drop_last());
            }
            assert(self@ =~= CollectorView { middleware: popped(before), ..old(self)@ });
        }
    }

    /// Enters a route call: the route is opened as `begin_route` says and
    /// the calls and schema names inside it are added to it until
    /// `exit_route`.
    pub fn enter_route(
        &mut self,
        method: &Vec<char>,
        path: &Vec<char>,
        route_start: u32,
        call_end: u32,
        handler: Option<(u32, u32)>,
        options: Option<(u32, u32)>,
    )
        requires
            old(self).wf(),
        ensures
            final(self).wf(),
            final(self)@.routes.len() == old(self)@.routes.len() + 1,
            final(self)@.routes.drop_last() == old(self)@.routes,
            is_new_route(
                final(self)@.routes.last(),
                old(self)@,
                method@,
                path@,
                route_start,
                old(self).span_spec(route_start, call_end),
                match handler {
                    Some((a, b)) => Some(old(self).span_spec(a, b)),
                    None => None,
                },
                match options {
                    Some((a, b)) => summary_spec(old(self).text_spec(a, b)),
                    None => None,
                },
            ),
            final(self)@ == (CollectorView {
                routes: final(self)@.routes,
                route_stack: old(self)@.route_stack.push(old(self)@.routes.len() as usize),
                ..old(self)@
            }),
    {
        let index = self.begin_route(method, path, route_start, call_end, handler, options);
        let ghost mid = self@;
        self.route_stack.push(index);
        assert(self@.route_stack =~= mid.route_stack.push(index));
        assert(self@ =~= CollectorView {
            routes: self@.routes,
            route_stack: old(self)@.route_stack.push(index),
            ..old(self)@
        });
    }

    /// Leaves a route call.
    pub fn exit_route(&mut self)
        requires
            old(self).wf(),
        ensures
            final(self).wf(),
            final(self)@ == (CollectorView { route_stack: popped(old(self)@.route_stack), ..old(self)@ }),
    {
        let ghost before = self@.route_stack;
        if self.route_stack.len() > 0 {
            self.route_stack.pop();
            assert(self@.route_stack =~= before.drop_last());
        }
        assert(self@ =~= CollectorView { route_stack: popped(before), ..old(self)@ });
    }
}

// ---------------------------------------------------------------------------
// The file's facts
// ---------------------------------------------------------------------------

/// The language label of a script by its file extension.
pub open spec fn language_label(extension: Option<Seq<char>>) -> Seq<char> {
    match extension {
        Some(e) => if e == "ts"@ || e == "mts"@ || e == "cts"@ {
            "TypeScript"@
        } else if e == "tsx"@ {
            "TypeScript JSX"@
        } else if e == "jsx"@ {
            "JavaScript JSX"@
        } else if e == "js"@ || e == "mjs"@ || e == "cjs"@ {
            "JavaScript"@
        } else {
            "ECMAScript"@
        },
        None => "ECMAScript"@,
    }
}

/// The language label for a file with extension `extension`.
pub fn label_for_extension(extension: Option<&str>) -> (r: &'static str)
    ensures
        r@ == language_label(
            match extension {
                Some(e) => Some(e@),
                None => None,
            },
        ),
{
    match extension {
        None => "ECMAScript",
        Some(e) => {
            let e = chars_of(e);
            if is(&e, "ts") || is(&e, "mts") || is(&e, "cts") {
                "TypeScript"
            } else if is(&e, "tsx") {
                "TypeScript JSX"
            } else if is(&e, "jsx") {
                "JavaScript JSX"
            } else if is(&e, "js") || is(&e, "mjs") || is(&e, "cjs") {
                "JavaScript"
            } else {
                "ECMAScript"
            }
        },
    }
}

/// The label of the language a script at `path` is written in, by the
/// extension that `Path::extension` finds.
pub fn source_type_label(path: &str) -> (r: &'static str)
    ensures
        exists|e: Option<Seq<char>>| r@ == #[trigger] language_label(e),
        known_file_name(path@) matches Some(n) ==> r@ == language_label(name_extension(n)),
{
    let extension = extension_of(path);
    let r = match &extension {
        Some(e) => label_for_extension(Some(e.as_str())),
        None => label_for_extension(None),
    };
    r
}

/// `s` with each run of equal neighbours kept once: `Vec::dedup`.
pub open spec fn dedup_adjacent(s: Seq<Seq<char>>) -> Seq<Seq<char>>
    decreases s.len(),
{
    if s.len() == 0 {
        Seq::empty()
    } else {
        let d = dedup_adjacent(s.drop_last());
        if d.len() > 0 && d.last() == s.last() {
            d
        } else {
            d.push(s.last())
        }
    }
}

/// Names in order, each once: `sort` and then `dedup`.
pub open spec fn sorted_names(s: Seq<Seq<char>>) -> Seq<Seq<char>> {
    dedup_adjacent(stable_sort(s, |a: Seq<char>, b: Seq<char>| seq_lt(a, b)))
}

/// `s` with each call that repeats the callee and start of the call kept
/// before it left out.
pub open spec fn dedup_call_sites(s: Seq<CallFact>) -> Seq<CallFact>
    decreases s.len(),
{
    if s.len() == 0 {
        Seq::empty()
    } else {
        let d = dedup_call_sites(s.drop_last());
        if d.len() > 0 && d.last().callee@ == s.last().callee@ && d.last().span.start
            == s.last().span.start {
            d
        } else {
            d.push(s.last())
        }
    }
}

/// A route's calls by position, each call site once.
pub open spec fn route_calls_spec(s: Seq<CallFact>) -> Seq<CallFact> {
    dedup_call_sites(stable_sort(s, |a: CallFact, b: CallFact| start_lt(a, b)))
}

/// `b` is route `a` as the file reports it: middleware and schema names
/// sorted and each once, calls by position and each call site once.
pub open spec fn route_finished(a: RouteFact, b: RouteFact) -> bool {
    &&& b.id == a.id
    &&& b.method == a.method
    &&& b.path == a.path
    &&& b.summary == a.summary
    &&& b.span == a.span
    &&& b.handler_span == a.handler_span
    &&& b.middleware.deep_view() == sorted_names(a.middleware.deep_view())
    &&& b.schema_refs.deep_view() == sorted_names(a.schema_refs.deep_view())
    &&& b.calls@ == route_calls_spec(a.calls@)
}

fn sorted_unique(names: &Vec<String>) -> (r: Vec<String>)
    ensures
        r.deep_view() == sorted_names(names.deep_view()),
{
    let mut chars: Vec<Vec<char>> = Vec::new();
    let mut i: usize = 0;
    while i < names.len()
        invariant
            i <= names.len(),
            chars.deep_view() == names.deep_view().take(i as int),
        decreases names.len() - i,
    {
        let ghost before = chars.deep_view();
        let c = chars_of(names[i].as_str());
        chars.push(c);
        assert(chars.deep_view() =~= before.push(names[i as int]@));
        assert(names.deep_view().take(i + 1) =~= names.deep_view().take(i as int).push(
            names[i as int]@,
        ));
        i += 1;
    }
    assert(names.deep_view().take(names.len() as int) =~= names.deep_view());
    let ghost cv = chars@;
    let lt = |a: &Vec<char>, b: &Vec<char>| -> (r: bool)
        ensures
            r == seq_lt(a@, b@),
        { less(a, b) };
    let ghost order = |a: Vec<char>, b: Vec<char>| seq_lt(a@, b@);
    let sorted = stable_sort_by(chars, &lt, Ghost(order));
    proof {
        let f = |x: Vec<char>| x@;
        let lt_u = |a: Seq<char>, b: Seq<char>| seq_lt(a, b);
        lemma_sort_map(cv, order, f, lt_u);
        assert(cv.map_values(f) =~= names.deep_view());
        assert(sorted.deep_view() =~= sorted@.map_values(f));
    }
    let ghost sv = sorted.deep_view();
    let mut unique: Vec<Vec<char>> = Vec::new();
    let mut j: usize = 0;
    while j < sorted.len()
        invariant
            j <= sorted.len(),
            sv == sorted.deep_view(),
            unique.deep_view() == dedup_adjacent(sv.take(j as int)),
        decreases sorted.len() - j,
    {
        assert(sv.take(j + 1).drop_last() == sv.take(j as int));
        let keep = unique.len() == 0 || !same(&unique[unique.len() - 1], &sorted[j]);
        if keep {
            let ghost before = unique.deep_view();
            let item = slice_of(&sorted[j], 0, sorted[j].len());
            assert(item@ =~= sv[j as int]);
            unique.push(item);
            assert(unique.deep_view() =~= before.push(sv[j as int]));
        }
        j += 1;
    }
    assert(sv.take(sorted.len() as int) =~= sv);
    strings_from(&unique)
}

fn unique_call_sites(calls: Vec<CallFact>) -> (r: Vec<CallFact>)
    ensures
        r@ == route_calls_spec(calls@),
{
    let sorted = sort_by_start(calls);
    let ghost sv = sorted@;
    let mut unique: Vec<CallFact> = Vec::new();
    let mut j: usize = 0;
    while j < sorted.len()
        invariant
            j <= sorted.len(),
            sv == sorted@,
            unique@ == dedup_call_sites(sv.take(j as int)),
        decreases sorted.len() - j,
    {
        assert(sv.take(j + 1).drop_last() == sv.take(j as int));
        let repeat = unique.len() > 0 && unique[unique.len() - 1].span.start == sorted[j].span.start
            && same(
            &chars_of(unique[unique.len() - 1].callee.as_str()),
            &chars_of(sorted[j].callee.as_str()),
        );
        if !repeat {
            unique.push(copy_call(&sorted[j]));
        }
        j += 1;
    }
    assert(sv.take(sorted.len() as int) =~= sv);
    unique
}

fn finished_route(route: RouteFact) -> (r: RouteFact)
    ensures
        route_finished(route, r),
{
    let middleware = sorted_unique(&route.middleware);
    let schema_refs = sorted_unique(&route.schema_refs);
    RouteFact {
        id: route.id,
        method: route.method,
        path: route.path,
        summary: route.summary,
        span: route.span,
        handler_span: route.handler_span,
        middleware,
        schema_refs,
        calls: unique_call_sites(route.calls),
    }
}

impl FactCollector {
    /// The facts of the file once its tree has been walked: each route's
    /// middleware and schema names sorted and each once, its calls by
    /// position with each call site once, and the counts. `absolute_path`
    /// gives the language, `diagnostics` are the parser's.
    pub fn finish(
        self,
        absolute_path: &str,
        content_hash: String,
        diagnostics: Vec<ParserDiagnostic>,
    ) -> (r: FileAnalysis)
        requires
            self.wf(),
        ensures
            r.id@ == "file:"@ + self@.relative_path,
            r.path@ == self@.relative_path,
            exists|e: Option<Seq<char>>| r.language@ == #[trigger] language_label(e),
            known_file_name(absolute_path@) matches Some(n) ==> r.language@ == language_label(
                name_extension(n),
            ),
            r.content_hash == content_hash,
            r.byte_length == utf8_len(self@.source),
            r.imports.deep_view() == self@.imports,
            r.symbols@.map_values(|s: SymbolFact| s@) == self@.symbols,
            r.calls@ == self@.calls,
            r.routes@.len() == self@.routes.len(),
            forall|i: int| 0 <= i < self@.routes.len() ==> route_finished(self@.routes[i], #[trigger] r.routes@[i]),
            r.diagnostics == diagnostics,
            r.metrics == (FileMetrics {
                imports: self@.imports.len() as usize,
                functions: self@.functions,
                classes: self@.classes,
                calls: self@.calls.len() as usize,
                routes: self@.routes.len() as usize,
                prisma_models: 0,
                prisma_enums: 0,
            }),
    {
        let ghost v = self@;
        let ghost old_routes = self.routes@;
        let FactCollector {
            relative_path,
            source,
            imports,
            symbols,
            calls,
            routes,
            functions,
            classes,
            ..
        } = self;
        let mut routes = routes;
        let mut finished: Vec<RouteFact> = Vec::new();
        let n = routes.len();
        while routes.len() > 0
            invariant
                finished@.len() + routes@.len() == n,
                n == old_routes.len(),
                routes@ == old_routes.skip(finished@.len() as int),
                forall|i: int| 0 <= i < finished@.len() ==> route_finished(old_routes[i], #[trigger] finished@[i]),
            decreases routes.len(),
        {
            let route = routes.remove(0);
            let ghost k = finished@.len() as int;
            assert(route == old_routes[k]);
            assert(routes@ =~= old_routes.skip(k + 1));
            finished.push(finished_route(route));
        }
        let metrics = FileMetrics {
            imports: imports.len(),
            functions,
            classes,
            calls: calls.len(),
            routes: finished.len(),
            prisma_models: 0,
            prisma_enums: 0,
        };
        let mut id = chars_of("file:");
        append(&mut id, &relative_path);
        let byte_length = utf8_len_of(&source);
        proof {
            lemma_utf8_len_bounds(source@);
        }
        FileAnalysis {
            id: string_of(&id),
            path: string_of(&relative_path),
            language: source_type_label(absolute_path).to_string(),
            content_hash,
            byte_length: byte_length as u64,
            imports,
            symbols,
            calls,
            routes: finished,
            diagnostics,
            metrics,
        }
    }
}

// ---------------------------------------------------------------------------
// Laws of the walk
// ---------------------------------------------------------------------------

/// Leaving a scope undoes entering it: after `enter_group` and
/// `exit_group` with the count it returned, after `enter_use` and
/// `exit_use`, after `enter_route` and `exit_route`, and after entering and
/// leaving a named function, method or class, the path prefixes,
/// middleware, open routes, owners and classes are as they were before.
pub proof fn lemma_exits_undo_entries(
    v: CollectorView,
    chain: Seq<Seq<char>>,
    prefix: Seq<char>,
    name: Seq<char>,
    route: usize,
)
    requires
        chain.len() <= usize::MAX,
    ensures
        ({
            let entered = CollectorView {
                middleware: v.middleware + chain,
                path_prefixes: v.path_prefixes.push(prefix),
                ..v
            };
            CollectorView {
                path_prefixes: popped(entered.path_prefixes),
                middleware: without_last(entered.middleware, chain.len() as usize),
                ..entered
            }
        }) == v,
        ({
            let entered = CollectorView { middleware: v.middleware.push(name), ..v };
            CollectorView { middleware: popped(entered.middleware), ..entered }
        }) == v,
        ({
            let entered = CollectorView { route_stack: v.route_stack.push(route), ..v };
            CollectorView { route_stack: popped(entered.route_stack), ..entered }
        }) == v,
        ({
            let entered = CollectorView { owner_stack: v.owner_stack.push(name), ..v };
            CollectorView { owner_stack: popped(entered.owner_stack), ..entered }
        }) == v,
        ({
            let entered = CollectorView { class_stack: v.class_stack.push(name), ..v };
            CollectorView { class_stack: popped(entered.class_stack), ..entered }
        }) == v,
{
    assert(without_last(v.middleware + chain, chain.len() as usize) =~= v.middleware);
    assert(popped(v.path_prefixes.push(prefix)) =~= v.path_prefixes);
    assert(popped(v.middleware.push(name)) =~= v.middleware);
    assert(popped(v.route_stack.push(route)) =~= v.route_stack);
    assert(popped(v.owner_stack.push(name)) =~= v.owner_stack);
    assert(popped(v.class_stack.push(name)) =~= v.class_stack);
}

/// The scopes a collector has open and the facts it has gathered that a
/// walk only adds to.
pub struct ScopeView {
    pub path_prefixes: Seq<Seq<char>>,
    pub middleware: Seq<Seq<char>>,
    pub route_stack: Seq<usize>,
    pub owner_stack: Seq<Seq<char>>,
    pub class_stack: Seq<Seq<char>>,
    pub imports: Seq<Seq<char>>,
    pub symbols: Seq<SymbolView>,
    pub calls: Seq<CallFact>,
}

pub open spec fn scope_view(v: CollectorView) -> ScopeView {
    ScopeView {
        path_prefixes: v.path_prefixes,
        middleware: v.middleware,
        route_stack: v.route_stack,
        owner_stack: v.owner_stack,
        class_stack: v.class_stack,
        imports: v.imports,
        symbols: v.symbols,
        calls: v.calls,
    }
}

/// What entering a scope opened, which leaving it undoes.
pub enum Frame {
    /// `enter_group`: the path prefix and the middleware of the chain.
    Group(Seq<char>, Seq<Seq<char>>),
    /// `enter_use`: the middleware name, where one was pushed.
    Use(Option<Seq<char>>),
    /// `enter_route`: the index of the route on the route stack.
    Route(usize),
    /// `enter_function` or `enter_method`: the owner and its symbol, if named.
    Owner(Option<(Seq<char>, SymbolView)>),
    /// `enter_class`: the class and its symbol, if named.
    Class(Option<(Seq<char>, SymbolView)>),
}

/// What entering the scope `f` does.
pub open spec fn open_frame(s: ScopeView, f: Frame) -> ScopeView {
    match f {
        Frame::Group(prefix, chain) => ScopeView {
            middleware: s.middleware + chain,
            path_prefixes: s.path_prefixes.push(prefix),
            ..s
        },
        Frame::Use(Some(name)) => ScopeView { middleware: s.middleware.push(name), ..s },
        Frame::Use(None) => s,
        Frame::Route(index) => ScopeView { route_stack: s.route_stack.push(index), ..s },
        Frame::Owner(Some((name, symbol))) => ScopeView {
            owner_stack: s.owner_stack.push(name),
            symbols: s.symbols.push(symbol),
            ..s
        },
        Frame::Owner(None) => s,
        Frame::Class(Some((name, symbol))) => ScopeView {
            class_stack: s.class_stack.push(name),
            symbols: s.symbols.push(symbol),
            ..s
        },
        Frame::Class(None) => s,
    }
}

/// What leaving the scope `f` does.
pub open spec fn close_frame(s: ScopeView, f: Frame) -> ScopeView {
    match f {
        Frame::Group(prefix, chain) => ScopeView {
            path_prefixes: popped(s.path_prefixes),
            middleware: if chain.len() <= s.middleware.len() {
                s.middleware.take(s.middleware.len() - chain.len())
            } else {
                s.middleware.take(0)
            },
            ..s
        },
        Frame::Use(Some(name)) => ScopeView { middleware: popped(s.middleware), ..s },
        Frame::Use(None) => s,
        Frame::Route(index) => ScopeView { route_stack: popped(s.route_stack), ..s },
        Frame::Owner(Some(_)) => ScopeView { owner_stack: popped(s.owner_stack), ..s },
        Frame::Owner(None) => s,
        Frame::Class(Some(_)) => ScopeView { class_stack: popped(s.class_stack), ..s },
        Frame::Class(None) => s,
    }
}

/// One step of a walk over a syntax tree.
pub enum WalkStep {
    /// A call that opens no scope and adds these imports, symbols and calls.
    Facts(Seq<Seq<char>>, Seq<SymbolView>, Seq<CallFact>),
    /// A scope: entered, the steps inside it walked, and left again.
    Scope(Frame, Seq<WalkStep>),
}

/// `s` after the steps of a walk.
pub open spec fn walk(s: ScopeView, steps: Seq<WalkStep>) -> ScopeView
    decreases steps,
{
    if steps.len() == 0 {
        s
    } else {
        let after = match steps[0] {
            WalkStep::Facts(imports, symbols, calls) => ScopeView {
                imports: s.imports + imports,
                symbols: s.symbols + symbols,
                calls: s.calls + calls,
                ..s
            },
            WalkStep::Scope(f, inner) => close_frame(walk(open_frame(s, f), inner), f),
        };
        walk(after, steps.subrange(1, steps.len() as int))
    }
}

/// `a` is where `b` began: `b` is `a` with more after it.
pub open spec fn grows<A>(a: Seq<A>, b: Seq<A>) -> bool {
    a.len() <= b.len() && b.take(a.len() as int) == a
}

proof fn lemma_grows_trans<A>(a: Seq<A>, b: Seq<A>, c: Seq<A>)
    requires
        grows(a, b),
        grows(b, c),
    ensures
        grows(a, c),
{
    assert(c.take(a.len() as int) =~= c.take(b.len() as int).take(a.len() as int));
}

/// The scopes are what `s` has open, and the facts have only grown.
pub open spec fn restores(s: ScopeView, t: ScopeView) -> bool {
    &&& t.path_prefixes == s.path_prefixes
    &&& t.middleware == s.middleware
    &&& t.route_stack == s.route_stack
    &&& t.owner_stack == s.owner_stack
    &&& t.class_stack == s.class_stack
    &&& grows(s.imports, t.imports)
    &&& grows(s.symbols, t.symbols)
    &&& grows(s.calls, t.calls)
}

proof fn lemma_restores_trans(s: ScopeView, t: ScopeView, u: ScopeView)
    requires
        restores(s, t),
        restores(t, u),
    ensures
        restores(s, u),
{
    lemma_grows_trans(s.imports, t.imports, u.imports);
    lemma_grows_trans(s.symbols, t.symbols, u.symbols);
    lemma_grows_trans(s.calls, t.calls, u.calls);
}

/// A walk closes every scope it opens: whatever calls a syntax tree holds,
/// each scope that a call enters and leaves around its children, however
/// deeply the children open scopes of their own, leaves the path prefixes,
/// middleware, open routes, owners and classes as they were, and the
/// imports, symbols and calls gathered before it still begin the ones
/// gathered after it.
pub proof fn lemma_walk_restores_scopes(s: ScopeView, steps: Seq<WalkStep>)
    ensures
        restores(s, walk(s, steps)),
    decreases steps,
{
    assert(s.imports.take(s.imports.len() as int) =~= s.imports);
    assert(s.symbols.take(s.symbols.len() as int) =~= s.symbols);
    assert(s.calls.take(s.calls.len() as int) =~= s.calls);
    if steps.len() > 0 {
        let rest = steps.subrange(1, steps.len() as int);
        let after = match steps[0] {
            WalkStep::Facts(imports, symbols, calls) => ScopeView {
                imports: s.imports + imports,
                symbols: s.symbols + symbols,
                calls: s.calls + calls,
                ..s
            },
            WalkStep::Scope(f, inner) => close_frame(walk(open_frame(s, f), inner), f),
        };
        match steps[0] {
            WalkStep::Facts(imports, symbols, calls) => {
                assert((s.imports + imports).take(s.imports.len() as int) =~= s.imports);
                assert((s.symbols + symbols).take(s.symbols.len() as int) =~= s.symbols);
                assert((s.calls + calls).take(s.calls.len() as int) =~= s.calls);
            },
            WalkStep::Scope(f, inner) => {
                let opened = open_frame(s, f);
                let inside = walk(opened, inner);
                lemma_walk_restores_scopes(opened, inner);
                assert(grows(s.symbols, opened.symbols)) by {
                    assert(opened.symbols.take(s.symbols.len() as int) =~= s.symbols);
                }
                lemma_grows_trans(s.symbols, opened.symbols, inside.symbols);
                assert(popped(s.path_prefixes.push(Seq::<char>::empty())) =~= s.path_prefixes);
                match f {
                    Frame::Group(prefix, chain) => {
                        assert(popped(s.path_prefixes.push(prefix)) =~= s.path_prefixes);
                        assert((s.middleware + chain).take(s.middleware.len() as int)
                            =~= s.middleware);
                    },
                    Frame::Use(Some(name)) => {
                        assert(popped(s.middleware.push(name)) =~= s.middleware);
                    },
                    Frame::Route(index) => {
                        assert(popped(s.route_stack.push(index)) =~= s.route_stack);
                    },
                    Frame::Owner(Some((name, symbol))) => {
                        assert(popped(s.owner_stack.push(name)) =~= s.owner_stack);
                    },
                    Frame::Class(Some((name, symbol))) => {
                        assert(popped(s.class_stack.push(name)) =~= s.class_stack);
                    },
                    _ => {},
                }
            },
        }
        lemma_walk_restores_scopes(after, rest);
        lemma_restores_trans(s, after, walk(after, rest));
    }
}

/// The frames follow the collector: entering a group, a `use`, a route, a
/// named function or method, or a named class changes a collector's view as
/// `enter_group`, `enter_use`, `enter_route`, `enter_function` and
/// `enter_class` promise, and that is `open_frame` of its frame; the
/// matching exits are `close_frame`; a call recorded by `add_call` is a
/// step that adds facts.
pub proof fn lemma_frames_follow_collector(
    v: CollectorView,
    prefix: Seq<char>,
    chain: Seq<Seq<char>>,
    name: Seq<char>,
    symbol: SymbolView,
    w: CollectorView,
)
    requires
        chain.len() <= usize::MAX,
    ensures
        scope_view(
            CollectorView {
                middleware: v.middleware + chain,
                path_prefixes: v.path_prefixes.push(prefix),
                ..v
            },
        ) == open_frame(scope_view(v), Frame::Group(prefix, chain)),
        scope_view(
            CollectorView {
                path_prefixes: popped(v.path_prefixes),
                middleware: without_last(v.middleware, chain.len() as usize),
                ..v
            },
        ) == close_frame(scope_view(v), Frame::Group(prefix, chain)),
        scope_view(CollectorView { middleware: v.middleware.push(name), ..v }) == open_frame(
            scope_view(v),
            Frame::Use(Some(name)),
        ),
        scope_view(CollectorView { middleware: popped(v.middleware), ..v }) == close_frame(
            scope_view(v),
            Frame::Use(Some(name)),
        ),
        scope_view(
            CollectorView {
                routes: w.routes,
                route_stack: v.route_stack.push(v.routes.len() as usize),
                ..v
            },
        ) == open_frame(scope_view(v), Frame::Route(v.routes.len() as usize)),
        scope_view(CollectorView { route_stack: popped(v.route_stack), ..v }) == close_frame(
            scope_view(v),
            Frame::Route(v.routes.len() as usize),
        ),
        scope_view(
            CollectorView {
                functions: w.functions,
                symbols: v.symbols.push(symbol),
                owner_stack: v.owner_stack.push(name),
                ..v
            },
        ) == open_frame(scope_view(v), Frame::Owner(Some((name, symbol)))),
        scope_view(CollectorView { owner_stack: popped(v.owner_stack), ..v }) == close_frame(
            scope_view(v),
            Frame::Owner(Some((name, symbol))),
        ),
        scope_view(
            CollectorView {
                classes: w.classes,
                symbols: v.symbols.push(symbol),
                class_stack: v.class_stack.push(name),
                ..v
            },
        ) == open_frame(scope_view(v), Frame::Class(Some((name, symbol)))),
        scope_view(CollectorView { class_stack: popped(v.class_stack), ..v }) == close_frame(
            scope_view(v),
            Frame::Class(Some((name, symbol))),
        ),
        forall|callee: Seq<char>, expression: Seq<char>, span: SourceSpan|
            #[trigger] call_added(v, w, callee, expression, span) ==> scope_view(w) == walk(
                scope_view(v),
                seq![WalkStep::Facts(Seq::empty(), Seq::empty(), w.calls.skip(v.calls.len() as int))],
            ),
{
    assert(scope_view(v).middleware + Seq::<Seq<char>>::empty() =~= v.middleware);
    assert forall|callee: Seq<char>, expression: Seq<char>, span: SourceSpan|
        #[trigger] call_added(v, w, callee, expression, span) implies scope_view(w) == walk(
            scope_view(v),
            seq![WalkStep::Facts(Seq::empty(), Seq::empty(), w.calls.skip(v.calls.len() as int))],
        ) by {
        let steps = seq![WalkStep::Facts(Seq::<Seq<char>>::empty(), Seq::<SymbolView>::empty(), w.calls.skip(v.calls.len() as int))];
        let s = scope_view(v);
        let after = ScopeView {
            imports: s.imports + Seq::<Seq<char>>::empty(),
            symbols: s.symbols + Seq::<SymbolView>::empty(),
            calls: s.calls + w.calls.skip(v.calls.len() as int),
            ..s
        };
        assert(steps.subrange(1, 1) =~= Seq::<WalkStep>::empty());
        assert(s.imports + Seq::<Seq<char>>::empty() =~= s.imports);
        assert(s.symbols + Seq::<SymbolView>::empty() =~= s.symbols);
        if callee.len() == 0 {
            assert(w.calls.skip(v.calls.len() as int) =~= Seq::<CallFact>::empty());
            assert(s.calls + Seq::<CallFact>::empty() =~= s.calls);
        } else {
            assert(w.calls =~= v.calls + w.calls.skip(v.calls.len() as int));
        }
        assert(walk(s, steps) == walk(after, steps.subrange(1, 1)));
    }
}

proof fn lemma_first_past_spec(v: Seq<u32>, bound: u32, i: int)
    requires
        0 <= i <= v.len(),
    ensures
        i <= first_past_from(v, bound, false, i) <= v.len(),
        forall|j: int| i <= j < first_past_from(v, bound, false, i) ==> #[trigger] v[j] <= bound,
        first_past_from(v, bound, false, i) < v.len() ==> v[first_past_from(v, bound, false, i)]
            > bound,
    decreases v.len() - i,
{
    if i < v.len() && v[i] <= bound {
        lemma_first_past_spec(v, bound, i + 1);
    }
}

proof fn lemma_line_starts_first(src: Seq<char>, n: int)
    ensures
        line_starts_upto(src, n).len() >= 1,
        line_starts_upto(src, n)[0] == 0,
    decreases n,
{
    if 0 < n <= src.len() {
        lemma_line_starts_first(src, n - 1);
    }
}

/// Lines are numbered from 1 and never go back: the line of an offset is at
/// least 1, at most the line of any later offset; so a span that is not
/// empty starts on or before the line it ends on.
pub proof fn lemma_lines_ordered(c: FactCollector, a: u32, b: u32)
    requires
        c.wf(),
        a <= b,
    ensures
        1 <= line_of(c.line_starts@, a) <= line_of(c.line_starts@, b),
        a < b ==> c.span_spec(a, b).start_line.unwrap() <= c.span_spec(a, b).end_line.unwrap(),
{
    let ls = c.line_starts@;
    lemma_line_starts_first(c.source@, c.source@.len() as int);
    lemma_first_past_spec(ls, a, 0);
    lemma_first_past_spec(ls, b, 0);
    let ka = first_past_from(ls, a, false, 0);
    let kb = first_past_from(ls, b, false, 0);
    if kb < ka {
        assert(ls[kb] <= a);
    }
    if a < b {
        let e = (b - 1) as u32;
        lemma_first_past_spec(ls, e, 0);
        let ke = first_past_from(ls, e, false, 0);
        if ke < ka {
            assert(ls[ke] <= a);
        }
    }
}

proof fn lemma_text_order()
    ensures
        strict_weak(|a: Seq<char>, b: Seq<char>| seq_lt(a, b)),
{
    let lt = |a: Seq<char>, b: Seq<char>| seq_lt(a, b);
    assert forall|a: Seq<char>, b: Seq<char>| #[trigger] lt(a, b) implies !lt(b, a) by {
        lemma_seq_lt_order(a, b, a);
    }
    assert forall|a: Seq<char>, b: Seq<char>, c: Seq<char>|
        #![trigger lt(a, b), lt(b, c)]
        !lt(a, b) && !lt(b, c) implies !lt(a, c) by {
        lemma_seq_lt_order(a, b, c);
        lemma_seq_lt_order(c, b, a);
        lemma_seq_lt_order(a, c, b);
    }
}

proof fn lemma_dedup_increasing(s: Seq<Seq<char>>)
    requires
        sorted_by(s, |a: Seq<char>, b: Seq<char>| seq_lt(a, b)),
    ensures
        forall|i: int|
            0 <= i < dedup_adjacent(s).len() ==> s.contains(#[trigger] dedup_adjacent(s)[i]),
        s.len() > 0 ==> dedup_adjacent(s).len() > 0 && dedup_adjacent(s).last() == s.last(),
        forall|i: int, j: int|
            0 <= i < j < dedup_adjacent(s).len() ==> seq_lt(
                #[trigger] dedup_adjacent(s)[i],
                #[trigger] dedup_adjacent(s)[j],
            ),
    decreases s.len(),
{
    if s.len() > 0 {
        let p = s.drop_last();
        assert(sorted_by(p, |a: Seq<char>, b: Seq<char>| seq_lt(a, b))) by {
            assert forall|i: int, j: int| 0 <= i < j < p.len() implies !seq_lt(
                #[trigger] p[j],
                #[trigger] p[i],
            ) by {
                assert(p[i] == s[i] && p[j] == s[j]);
            }
        }
        lemma_dedup_increasing(p);
        let d = dedup_adjacent(p);
        let x = s.last();
        let r = dedup_adjacent(s);
        assert forall|i: int| 0 <= i < r.len() implies s.contains(#[trigger] r[i]) by {
            if i < d.len() {
                assert(r[i] == d[i]);
                let k = choose|k: int| 0 <= k < p.len() && p[k] == d[i];
                assert(s[k] == p[k]);
            } else {
                assert(s[s.len() - 1] == x);
            }
        }
        if !(d.len() > 0 && d.last() == x) {
            assert forall|i: int, j: int| 0 <= i < j < r.len() implies seq_lt(
                #[trigger] r[i],
                #[trigger] r[j],
            ) by {
                if j == d.len() {
                    assert(r[i] == d[i] && r[j] == x);
                    let k = choose|k: int| 0 <= k < p.len() && p[k] == d[i];
                    assert(s[k] == p[k]);
                    assert(!seq_lt(s[s.len() - 1], s[k]));
                    if d[i] == x {
                        let m = choose|m: int| 0 <= m < p.len() && p[m] == d.last();
                        assert(s[m] == p[m]);
                        assert(!seq_lt(s[s.len() - 1], s[m]));
                        if i < d.len() - 1 {
                            assert(seq_lt(d[i], d[d.len() - 1]));
                        }
                    }
                    lemma_seq_lt_order(d[i], x, x);
                } else {
                    assert(r[i] == d[i] && r[j] == d[j]);
                }
            }
        }
    }
}

/// The middleware and schema names a route reports are in order and each
/// once: every one is strictly before the next.
pub proof fn lemma_route_names_sorted_unique(names: Seq<Seq<char>>)
    ensures
        forall|i: int, j: int|
            0 <= i < j < sorted_names(names).len() ==> seq_lt(
                #[trigger] sorted_names(names)[i],
                #[trigger] sorted_names(names)[j],
            ),
{
    lemma_text_order();
    lemma_sort_sorted(names, |a: Seq<char>, b: Seq<char>| seq_lt(a, b));
    lemma_dedup_increasing(stable_sort(names, |a: Seq<char>, b: Seq<char>| seq_lt(a, b)));
}

proof fn lemma_dedup_calls_ordered(s: Seq<CallFact>)
    requires
        forall|i: int, j: int| 0 <= i < j < s.len() ==> (#[trigger] s[i]).span.start <= (#[trigger] s[j]).span.start,
    ensures
        forall|i: int|
            0 <= i < dedup_call_sites(s).len() ==> s.contains(#[trigger] dedup_call_sites(s)[i]),
        forall|i: int, j: int|
            0 <= i < j < dedup_call_sites(s).len() ==> (#[trigger] dedup_call_sites(s)[i]).span.start
                <= (#[trigger] dedup_call_sites(s)[j]).span.start,
    decreases s.len(),
{
    if s.len() > 0 {
        let p = s.drop_last();
        assert forall|i: int, j: int| 0 <= i < j < p.len() implies (#[trigger] p[i]).span.start <= (
        #[trigger] p[j]).span.start by {
            assert(p[i] == s[i] && p[j] == s[j]);
        }
        lemma_dedup_calls_ordered(p);
        let d = dedup_call_sites(p);
        let r = dedup_call_sites(s);
        assert forall|i: int| 0 <= i < r.len() implies s.contains(#[trigger] r[i]) by {
            if i < d.len() {
                assert(r[i] == d[i]);
                let k = choose|k: int| 0 <= k < p.len() && p[k] == d[i];
                assert(s[k] == p[k]);
            } else {
                assert(s[s.len() - 1] == r[i]);
            }
        }
        assert forall|i: int, j: int| 0 <= i < j < r.len() implies (#[trigger] r[i]).span.start <= (
        #[trigger] r[j]).span.start by {
            if j < d.len() {
                assert(r[i] == d[i] && r[j] == d[j]);
            } else {
                assert(r[i] == d[i]);
                let k = choose|k: int| 0 <= k < p.len() && p[k] == d[i];
                assert(s[k] == p[k]);
                assert(s[k].span.start <= s[s.len() - 1].span.start);
            }
        }
    }
}

/// The calls a route reports are in source order: by the byte at which
/// each starts.
pub proof fn lemma_route_calls_ordered(calls: Seq<CallFact>)
    ensures
        forall|i: int, j: int|
            0 <= i < j < route_calls_spec(calls).len() ==> (#[trigger] route_calls_spec(calls)[i]).span.start
                <= (#[trigger] route_calls_spec(calls)[j]).span.start,
{
    let lt = |a: CallFact, b: CallFact| start_lt(a, b);
    assert(strict_weak(lt));
    lemma_sort_sorted(calls, lt);
    let sorted = stable_sort(calls, lt);
    assert forall|i: int, j: int| 0 <= i < j < sorted.len() implies (#[trigger] sorted[i]).span.start
        <= (#[trigger] sorted[j]).span.start by {
        assert(!lt(sorted[j], sorted[i]));
    }
    lemma_dedup_calls_ordered(sorted);
}

/// Every route path is absolute: it starts with `/`.
pub proof fn lemma_route_paths_absolute(prefixes: Seq<Seq<char>>, route_path: Seq<char>)
    ensures
        current_path_spec(prefixes, route_path).len() > 0,
        current_path_spec(prefixes, route_path)[0] == '/',
{
    reveal_strlit("/");
    let path = join(prefixes, ""@) + route_path;
    if path.len() > 0 && path[0] != '/' {
        assert(("/"@ + path)[0] == '/');
    }
}

proof fn lemma_dedup_calls_subset(s: Seq<CallFact>)
    ensures
        forall|i: int|
            0 <= i < dedup_call_sites(s).len() ==> s.contains(#[trigger] dedup_call_sites(s)[i]),
    decreases s.len(),
{
    if s.len() > 0 {
        let p = s.drop_last();
        lemma_dedup_calls_subset(p);
        let d = dedup_call_sites(p);
        let r = dedup_call_sites(s);
        assert forall|i: int| 0 <= i < r.len() implies s.contains(#[trigger] r[i]) by {
            if i < d.len() {
                assert(r[i] == d[i]);
                let k = choose|k: int| 0 <= k < p.len() && p[k] == d[i];
                assert(s[k] == p[k]);
            } else {
                assert(s[s.len() - 1] == r[i]);
            }
        }
    }
}

/// A route never reports a call that the file did not record: each call of
proof fn lemma_dedup_keeps_sites(s: Seq<CallFact>)
    ensures
        forall|m: int|
            #![trigger s[m]]
            0 <= m < s.len() ==> exists|k: int|
                0 <= k < dedup_call_sites(s).len() && (#[trigger] dedup_call_sites(s)[k]).callee@
                    == s[m].callee@ && dedup_call_sites(s)[k].span.start == s[m].span.start,
        forall|k: int|
            0 < k < dedup_call_sites(s).len() ==> !((#[trigger] dedup_call_sites(s)[k]).callee@
                == dedup_call_sites(s)[k - 1].callee@ && dedup_call_sites(s)[k].span.start
                == dedup_call_sites(s)[k - 1].span.start),
    decreases s.len(),
{
    if s.len() > 0 {
        let p = s.drop_last();
        lemma_dedup_keeps_sites(p);
        let d = dedup_call_sites(p);
        let r = dedup_call_sites(s);
        let x = s.last();
        assert forall|m: int| #![trigger s[m]] 0 <= m < s.len() implies exists|k: int|
            0 <= k < r.len() && (#[trigger] r[k]).callee@ == s[m].callee@ && r[k].span.start
                == s[m].span.start by {
            if m < p.len() {
                assert(s[m] == p[m]);
                let k = choose|k: int|
                    0 <= k < d.len() && (#[trigger] d[k]).callee@ == p[m].callee@ && d[k].span.start
                        == p[m].span.start;
                assert(r[k] == d[k]);
            } else {
                assert(s[m] == x);
                if r == d {
                    assert(r[d.len() - 1] == d.last());
                } else {
                    assert(r[r.len() - 1] == x);
                }
            }
        }
    }
}

/// Finishing a route drops only repeated call sites: every call the route
/// recorded still has its callee and start among the finished route's
/// calls, each finished call is one the route recorded, and no two
/// neighbouring finished calls share both callee and start.
pub proof fn lemma_route_keeps_call_sites(calls: Seq<CallFact>)
    ensures
        forall|m: int|
            #![trigger calls[m]]
            0 <= m < calls.len() ==> exists|k: int|
                0 <= k < route_calls_spec(calls).len() && (#[trigger] route_calls_spec(
                    calls,
                )[k]).callee@ == calls[m].callee@ && route_calls_spec(calls)[k].span.start
                    == calls[m].span.start,
        forall|k: int|
            0 <= k < route_calls_spec(calls).len() ==> calls.contains(
                #[trigger] route_calls_spec(calls)[k],
            ),
        forall|k: int|
            0 < k < route_calls_spec(calls).len() ==> !((#[trigger] route_calls_spec(
                calls,
            )[k]).callee@ == route_calls_spec(calls)[k - 1].callee@ && route_calls_spec(
                calls,
            )[k].span.start == route_calls_spec(calls)[k - 1].span.start),
{
    let lt = |a: CallFact, b: CallFact| start_lt(a, b);
    let sorted = stable_sort(calls, lt);
    let r = route_calls_spec(calls);
    lemma_dedup_keeps_sites(sorted);
    assert forall|m: int| #![trigger calls[m]] 0 <= m < calls.len() implies exists|k: int|
        0 <= k < r.len() && (#[trigger] r[k]).callee@ == calls[m].callee@ && r[k].span.start
            == calls[m].span.start by {
        let x = calls[m];
        assert(sorted.contains(x)) by {
            lemma_sort_multiset(calls, lt);
            vstd::seq_lib::to_multiset_contains(calls, x);
            vstd::seq_lib::to_multiset_contains(sorted, x);
            assert(calls[m] == x);
        }
        let j = choose|j: int| 0 <= j < sorted.len() && sorted[j] == x;
        assert(sorted[j] == x);
    }
    assert forall|k: int| 0 <= k < r.len() implies calls.contains(#[trigger] r[k]) by {
        lemma_sort_elements(calls, lt);
        lemma_dedup_calls_subset(sorted);
        assert(sorted.contains(r[k]));
        let j = choose|j: int| 0 <= j < sorted.len() && sorted[j] == r[k];
        assert(calls.contains(sorted[j]));
    }
}

/// a finished route is one of the file's calls.
pub proof fn lemma_route_calls_recorded(c: FactCollector)
    requires
        c.wf(),
    ensures
        forall|i: int, k: int|
            0 <= i < c@.routes.len() && 0 <= k < route_calls_spec(c@.routes[i].calls@).len()
                ==> c@.calls.contains(#[trigger] route_calls_spec(c@.routes[i].calls@)[k]),
{
    assert forall|i: int, k: int|
        0 <= i < c@.routes.len() && 0 <= k < route_calls_spec(c@.routes[i].calls@).len() implies c@.calls.contains(
        #[trigger] route_calls_spec(c@.routes[i].calls@)[k],
    ) by {
        let calls = c@.routes[i].calls@;
        let lt = |a: CallFact, b: CallFact| start_lt(a, b);
        let sorted = stable_sort(calls, lt);
        lemma_sort_elements(calls, lt);
        lemma_dedup_calls_subset(sorted);
        let x = route_calls_spec(calls)[k];
        assert(sorted.contains(x));
        let j = choose|j: int| 0 <= j < sorted.len() && sorted[j] == x;
        assert(calls.contains(sorted[j]));
        let m = choose|m: int| 0 <= m < calls.len() && calls[m] == x;
        assert(c.routes@[i].calls@[m] == x);
    }
}

} // verus!
