//! Model and enum declarations of a Prisma schema.
use vstd::prelude::*;

use crate::model::{FileAnalysis, FileMetrics, SourceSpan, SymbolFact, SymbolKind, SymbolView};
use crate::text::{
    append, append_str, chars_of, is_whitespace, is_ws, lemma_trim_start_is_suffix,
    lemma_utf8_len_bounds, lemma_utf8_len_concat, lemma_utf8_len_skip, lemma_utf8_len_take,
    lemma_newline_from, newline_from, slice_of, starts_with, starts_with_str, strip_cr, string_of, trim_start,
    trim_start_by, trim_start_of, utf8_len, utf8_len_of,
};

verus! {

/// The label of a declaration kind in symbol ids.
pub open spec fn kind_label(kind: SymbolKind) -> Seq<char> {
    match kind {
        SymbolKind::PrismaModel => "model"@,
        SymbolKind::PrismaEnum => "enum"@,
        _ => "symbol"@,
    }
}

/// Where a declared name ends: white space or `{`.
pub open spec fn is_name_stop(c: char) -> bool {
    is_ws(c) || c == '{'
}

/// The first index at or after `i` that ends a name, or the length.
pub open spec fn stop_from(s: Seq<char>, i: int) -> int
    decreases s.len() - i,
{
    if i < 0 || i >= s.len() {
        s.len() as int
    } else if is_name_stop(s[i]) {
        i
    } else {
        stop_from(s, i + 1)
    }
}

/// `model <Name>` or `enum <Name>` at the start of a trimmed line: its kind
/// and name, the name ending at white space or `{`.
pub open spec fn parse_declaration_spec(line: Seq<char>) -> Option<(SymbolKind, Seq<char>)> {
    let kind_rest = if starts_with(line, "model "@) {
        Some((SymbolKind::PrismaModel, line.skip("model "@.len() as int)))
    } else if starts_with(line, "enum "@) {
        Some((SymbolKind::PrismaEnum, line.skip("enum "@.len() as int)))
    } else {
        None
    };
    match kind_rest {
        None => None,
        Some((kind, rest)) => {
            let name = rest.take(stop_from(rest, 0));
            if name.len() > 0 {
                Some((kind, name))
            } else {
                None
            }
        },
    }
}

pub open spec fn saturating_sub(a: nat, b: nat) -> nat {
    if a >= b {
        (a - b) as nat
    } else {
        0
    }
}

/// The symbol that `line` declares, if any: `offset` is the byte offset at
/// which the line starts, `number` its 1-based number.
pub open spec fn line_symbol(path: Seq<char>, line: Seq<char>, offset: nat, number: nat) -> Option<
    SymbolView,
> {
    let trimmed = trim_start(line);
    match parse_declaration_spec(trimmed) {
        None => None,
        Some((kind, name)) => {
            let start = offset + saturating_sub(utf8_len(line), utf8_len(trimmed));
            Some(
                SymbolView {
                    id: "symbol:"@ + path + ":prisma-"@ + kind_label(kind) + ":"@ + name,
                    name: name,
                    kind: kind,
                    span: SourceSpan {
                        start: start as u32,
                        end: (start + utf8_len(trimmed)) as u32,
                        start_line: Some(number as u32),
                        end_line: Some(number as u32),
                    },
                },
            )
        },
    }
}

/// The one symbol of a line, or none.
pub open spec fn symbol_seq(symbol: Option<SymbolView>) -> Seq<SymbolView> {
    match symbol {
        Some(s) => seq![s],
        None => Seq::empty(),
    }
}

/// The symbols of the lines of `source` from character index `i` on, the
/// first of them numbered `number`. Lines are those of `str::lines`; a
/// line's byte offset counts every byte of `source` before it, whole line
/// endings (`\n` or `\r\n`) included.
pub open spec fn symbols_at(path: Seq<char>, source: Seq<char>, i: int, number: nat) -> Seq<
    SymbolView,
>
    decreases source.len() - i,
{
    if i < 0 || i >= source.len() {
        Seq::empty()
    } else {
        let j = newline_from(source, i);
        let offset = utf8_len(source.take(i));
        if j < source.len() && i <= j {
            symbol_seq(line_symbol(path, strip_cr(source.subrange(i, j)), offset, number))
                + symbols_at(path, source, j + 1, number + 1)
        } else {
            symbol_seq(line_symbol(path, source.subrange(i, source.len() as int), offset, number))
        }
    }
}

/// The declarations of a schema, in order.
pub open spec fn prisma_symbols(path: Seq<char>, source: Seq<char>) -> Seq<SymbolView> {
    symbols_at(path, source, 0, 1)
}

/// How many of `syms` have kind `kind`.
pub open spec fn count_kind(syms: Seq<SymbolView>, kind: SymbolKind) -> nat
    decreases syms.len(),
{
    if syms.len() == 0 {
        0
    } else {
        count_kind(syms.drop_last(), kind) + if syms.last().kind == kind {
            1nat
        } else {
            0nat
        }
    }
}

pub open spec fn symbol_views(syms: Seq<SymbolFact>) -> Seq<SymbolView> {
    syms.map_values(|s: SymbolFact| s@)
}

fn name_end(s: &Vec<char>) -> (k: usize)
    ensures
        k == stop_from(s@, 0),
        k <= s.len(),
{
    let mut k: usize = 0;
    while k < s.len() && !(is_whitespace(s[k]) || s[k] == '{')
        invariant
            k <= s.len(),
            stop_from(s@, 0) == stop_from(s@, k as int),
        decreases s.len() - k,
    {
        k += 1;
    }
    k
}

/// The kind and name that a trimmed line declares.
pub fn declaration_of(line: &Vec<char>) -> (r: Option<(SymbolKind, Vec<char>)>)
    ensures
        r matches Some((kind, name)) ==> parse_declaration_spec(line@) == Some((kind, name@)),
        r is None ==> parse_declaration_spec(line@) is None,
{
    let model = chars_of("model ");
    let enumeration = chars_of("enum ");
    let (kind, rest) = if starts_with_str(line, "model ") {
        (SymbolKind::PrismaModel, slice_of(line, model.len(), line.len()))
    } else if starts_with_str(line, "enum ") {
        (SymbolKind::PrismaEnum, slice_of(line, enumeration.len(), line.len()))
    } else {
        return None;
    };
    let k = name_end(&rest);
    let name = slice_of(&rest, 0, k);
    if name.len() > 0 {
        assert(name@ == rest@.take(k as int));
        Some((kind, name))
    } else {
        None
    }
}

/// The kind and name of a `model` or `enum` declaration that starts `line`.
pub fn parse_declaration(line: &str) -> (r: Option<(SymbolKind, String)>)
    ensures
        r matches Some((kind, name)) ==> parse_declaration_spec(line@) == Some((kind, name@)),
        r is None ==> parse_declaration_spec(line@) is None,
{
    match declaration_of(&chars_of(line)) {
        Some((kind, name)) => Some((kind, string_of(&name))),
        None => None,
    }
}

fn label_of(kind: SymbolKind) -> (r: &'static str)
    ensures
        r@ == kind_label(kind),
{
    match kind {
        SymbolKind::PrismaModel => "model",
        SymbolKind::PrismaEnum => "enum",
        _ => "symbol",
    }
}

/// The bytes of `s` up to `j` are those up to `i` and those between; a
/// prefix has no more bytes than the whole, and dropping a carriage return
/// shortens a line.
proof fn lemma_line_bytes(s: Seq<char>, i: int, j: int)
    requires
        0 <= i <= j <= s.len(),
    ensures
        utf8_len(s.take(j)) == utf8_len(s.take(i)) + utf8_len(s.subrange(i, j)),
        utf8_len(s.take(j)) <= utf8_len(s),
        utf8_len(strip_cr(s.subrange(i, j))) <= utf8_len(s.subrange(i, j)),
{
    lemma_utf8_len_concat(s.take(i), s.subrange(i, j));
    assert(s.take(i) + s.subrange(i, j) =~= s.take(j));
    lemma_utf8_len_concat(s.take(j), s.skip(j));
    assert(s.take(j) + s.skip(j) =~= s);
    let x = s.subrange(i, j);
    if x.len() > 0 && x.last() == '\r' {
        lemma_utf8_len_concat(x.drop_last(), seq![x.last()]);
        assert(x.drop_last() + seq![x.last()] =~= x);
    }
}

/// The symbol that `line`, numbered `number` and starting at byte `offset`,
/// declares, if any.
fn symbol_of_line(path: &Vec<char>, line: &Vec<char>, offset: u32, number: u32) -> (r: Option<
    SymbolFact,
>)
    requires
        offset + utf8_len(line@) <= u32::MAX,
    ensures
        match r {
            Some(f) => line_symbol(path@, line@, offset as nat, number as nat) == Some(f@),
            None => line_symbol(path@, line@, offset as nat, number as nat) is None,
        },
{
    let trimmed = trim_start_of(line, false);
    match declaration_of(&trimmed) {
        Some((kind, name)) => {
            let line_bytes = utf8_len_of(line);
            let trimmed_bytes = utf8_len_of(&trimmed);
            proof {
                lemma_trim_start_is_suffix(line@, false);
                let j = choose|j: int|
                    0 <= j <= line@.len() && trim_start_by(line@, false) == line@.skip(j);
                lemma_utf8_len_skip(line@, j);
            }
            let indentation: u32 = if line_bytes >= trimmed_bytes {
                (line_bytes - trimmed_bytes) as u32
            } else {
                0
            };
            let start: u32 = offset + indentation;
            let end: u32 = start + trimmed_bytes as u32;
            let mut id = chars_of("symbol:");
            append(&mut id, path);
            append_str(&mut id, ":prisma-");
            append_str(&mut id, label_of(kind));
            append_str(&mut id, ":");
            append(&mut id, &name);
            Some(
                SymbolFact {
                    id: string_of(&id),
                    name: string_of(&name),
                    kind,
                    span: SourceSpan {
                        start,
                        end,
                        start_line: Some(number),
                        end_line: Some(number),
                    },
                },
            )
        },
        None => None,
    }
}

/// The facts of a Prisma schema: one symbol per `model` or `enum`
/// declaration, with the counts of each. A span is the declaration's exact
/// byte range in `source_text`, whatever line endings come before it.
pub fn analyze_prisma(relative_path: &str, source_text: &str, content_hash: String) -> (r:
    FileAnalysis)
    requires
        utf8_len(source_text@) < u32::MAX,
    ensures
        r.id@ == "file:"@ + relative_path@,
        r.path@ == relative_path@,
        r.language@ == "Prisma Schema"@,
        r.content_hash == content_hash,
        r.byte_length == source_text.len() as u64,
        r.imports@.len() == 0,
        symbol_views(r.symbols@) == prisma_symbols(relative_path@, source_text@),
        r.calls@.len() == 0,
        r.routes@.len() == 0,
        r.diagnostics@.len() == 0,
        r.metrics.imports == 0,
        r.metrics.functions == 0,
        r.metrics.classes == 0,
        r.metrics.calls == 0,
        r.metrics.routes == 0,
        r.metrics.prisma_models == count_kind(
            prisma_symbols(relative_path@, source_text@),
            SymbolKind::PrismaModel,
        ),
        r.metrics.prisma_enums == count_kind(
            prisma_symbols(relative_path@, source_text@),
            SymbolKind::PrismaEnum,
        ),
{
    let src = chars_of(source_text);
    let ghost s = src@;
    let path = chars_of(relative_path);
    let mut symbols: Vec<SymbolFact> = Vec::new();
    let mut offset: u32 = 0;
    let mut number: u32 = 1;
    let mut i: usize = 0;
    proof {
        lemma_utf8_len_bounds(s);
        assert(s.take(0) =~= Seq::<char>::empty());
    }
    while i < src.len()
        invariant
            i <= src.len(),
            s == src@,
            s == source_text@,
            path@ == relative_path@,
            utf8_len(s) < u32::MAX,
            s.len() <= utf8_len(s),
            i < src.len() ==> offset == utf8_len(s.take(i as int)),
            1 <= number <= i + 1,
            symbol_views(symbols@) + symbols_at(path@, s, i as int, number as nat)
                == symbols_at(path@, s, 0, 1),
        decreases src.len() - i,
    {
        let mut j: usize = i;
        while j < src.len() && src[j] != '\n'
            invariant
                i <= j <= src.len(),
                s == src@,
                newline_from(s, i as int) == newline_from(s, j as int),
            decreases src.len() - j,
        {
            j += 1;
        }
        let raw = slice_of(&src, i, j);
        let raw_bytes = utf8_len_of(&raw);
        proof {
            lemma_line_bytes(s, i as int, j as int);
        }
        let ghost before = symbol_views(symbols@);
        let ghost line_spec = if j < src.len() {
            strip_cr(s.subrange(i as int, j as int))
        } else {
            s.subrange(i as int, s.len() as int)
        };
        let mut line = raw;
        if j < src.len() && line.len() > 0 && line[line.len() - 1] == '\r' {
            let n = line.len() - 1;
            line = slice_of(&line, 0, n);
        }
        assert(line@ == line_spec);
        match symbol_of_line(&path, &line, offset, number) {
            Some(symbol) => {
                symbols.push(symbol);
                assert(symbol_views(symbols@) =~= before.push(symbol@));
            },
            None => {
                assert(symbol_views(symbols@) =~= before);
            },
        }
        assert(symbol_views(symbols@) == before + symbol_seq(
            line_symbol(path@, line_spec, offset as nat, number as nat),
        ));
        if j < src.len() {
            proof {
                lemma_line_bytes(s, i as int, j + 1);
                lemma_utf8_len_take(s, j as int);
            }
            offset = offset + raw_bytes as u32 + 1;
            number = number + 1;
            i = j + 1;
        } else {
            i = src.len();
        }
    }
    let ghost all = symbol_views(symbols@);
    assert(all + symbols_at(path@, s, i as int, number as nat) == all);
    let mut models: usize = 0;
    let mut enums: usize = 0;
    let mut i: usize = 0;
    while i < symbols.len()
        invariant
            i <= symbols.len(),
            all == symbol_views(symbols@),
            models == count_kind(all.take(i as int), SymbolKind::PrismaModel),
            enums == count_kind(all.take(i as int), SymbolKind::PrismaEnum),
            models <= i,
            enums <= i,
        decreases symbols.len() - i,
    {
        assert(all.take(i + 1).drop_last() == all.take(i as int));
        if symbols[i].kind == SymbolKind::PrismaModel {
            models += 1;
        }
        if symbols[i].kind == SymbolKind::PrismaEnum {
            enums += 1;
        }
        i += 1;
    }
    assert(all.take(symbols.len() as int) == all);
    FileAnalysis {
        id: string_of(&{
            let mut id = chars_of("file:");
            append(&mut id, &path);
            id
        }),
        path: string_of(&path),
        language: string_of(&chars_of("Prisma Schema")),
        content_hash,
        byte_length: source_text.len() as u64,
        imports: Vec::new(),
        symbols,
        calls: Vec::new(),
        routes: Vec::new(),
        diagnostics: Vec::new(),
        metrics: FileMetrics {
            imports: 0,
            functions: 0,
            classes: 0,
            calls: 0,
            routes: 0,
            prisma_models: models,
            prisma_enums: enums,
        },
    }
}

proof fn lemma_declared_kinds(path: Seq<char>, source: Seq<char>, i: int, number: nat)
    ensures
        forall|k: int|
            0 <= k < symbols_at(path, source, i, number).len() ==> (#[trigger] symbols_at(
                path,
                source,
                i,
                number,
            )[k]).kind == SymbolKind::PrismaModel || symbols_at(path, source, i, number)[k].kind
                == SymbolKind::PrismaEnum,
    decreases source.len() - i,
{
    if 0 <= i < source.len() {
        lemma_newline_from(source, i);
        let j = newline_from(source, i);
        let offset = utf8_len(source.take(i));
        if j < source.len() {
            lemma_declared_kinds(path, source, j + 1, number + 1);
            let here = symbol_seq(
                line_symbol(path, strip_cr(source.subrange(i, j)), offset, number),
            );
            let rest = symbols_at(path, source, j + 1, number + 1);
            assert forall|k: int| 0 <= k < (here + rest).len() implies (#[trigger] (here
                + rest)[k]).kind == SymbolKind::PrismaModel || (here + rest)[k].kind
                == SymbolKind::PrismaEnum by {
                if k >= here.len() {
                    assert((here + rest)[k] == rest[k - here.len()]);
                }
            }
        }
    }
}

proof fn lemma_counts_add_up(syms: Seq<SymbolView>)
    requires
        forall|i: int|
            0 <= i < syms.len() ==> (#[trigger] syms[i]).kind == SymbolKind::PrismaModel
                || syms[i].kind == SymbolKind::PrismaEnum,
    ensures
        count_kind(syms, SymbolKind::PrismaModel) + count_kind(syms, SymbolKind::PrismaEnum)
            == syms.len(),
    decreases syms.len(),
{
    if syms.len() > 0 {
        let d = syms.drop_last();
        assert forall|i: int| 0 <= i < d.len() implies (#[trigger] d[i]).kind
            == SymbolKind::PrismaModel || d[i].kind == SymbolKind::PrismaEnum by {
            assert(d[i] == syms[i]);
        }
        lemma_counts_add_up(d);
        assert(syms.last() == syms[syms.len() - 1]);
    }
}

/// Every declaration of a schema is a model or an enum, so the two counts
/// of a schema's facts add up to its number of symbols.
pub proof fn lemma_models_and_enums_add_up(path: Seq<char>, source: Seq<char>)
    ensures
        count_kind(prisma_symbols(path, source), SymbolKind::PrismaModel) + count_kind(
            prisma_symbols(path, source),
            SymbolKind::PrismaEnum,
        ) == prisma_symbols(path, source).len(),
{
    lemma_declared_kinds(path, source, 0, 1);
    lemma_counts_add_up(prisma_symbols(path, source));
}

} // verus!
