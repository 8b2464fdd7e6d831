//! A shallow reader of JavaScript object literals as they appear in source
//! text: top-level splitting that respects brackets and quotes, matching
//! braces, and `key: value` entries.
use vstd::prelude::*;

use crate::text::{
    find, find_char, join, lemma_chars_deep_view, lemma_find_bounds, same, slice_of, trim,
    trim_quotes, trimmed, unquoted,
};

verus! {

broadcast use lemma_chars_deep_view;

/// The scanner's state: open `{`, `[` and `(` counts, the open quote, and
/// whether the previous character inside the quote was a backslash.
pub type ScanState = (nat, nat, nat, Option<char>, bool);

pub open spec fn initial_scan() -> ScanState {
    (0, 0, 0, None, false)
}

pub open spec fn is_quote_char(c: char) -> bool {
    c == '\'' || c == '"' || c == '`'
}

/// One step of `split_top_level`: the next state, and whether `c` is a
/// delimiter at the top level.
pub open spec fn split_step(st: ScanState, c: char, d: char) -> (ScanState, bool) {
    let (b, k, p, q, e) = st;
    match q {
        Some(active) => {
            if e {
                ((b, k, p, q, false), false)
            } else if c == '\\' {
                ((b, k, p, q, true), false)
            } else if c == active {
                ((b, k, p, None, e), false)
            } else {
                (st, false)
            }
        },
        None => {
            if is_quote_char(c) {
                ((b, k, p, Some(c), e), false)
            } else if c == '{' {
                ((b + 1, k, p, q, e), false)
            } else if c == '}' {
                ((if b > 0 { (b - 1) as nat } else { 0 }, k, p, q, e), false)
            } else if c == '[' {
                ((b, k + 1, p, q, e), false)
            } else if c == ']' {
                ((b, if k > 0 { (k - 1) as nat } else { 0 }, p, q, e), false)
            } else if c == '(' {
                ((b, k, p + 1, q, e), false)
            } else if c == ')' {
                ((b, k, if p > 0 { (p - 1) as nat } else { 0 }, q, e), false)
            } else if c == d && b == 0 && k == 0 && p == 0 {
                (st, true)
            } else {
                (st, false)
            }
        },
    }
}

/// The pieces of `s` from index `i` on, the current piece having begun at `start`.
pub open spec fn pieces_from(s: Seq<char>, d: char, i: int, st: ScanState, start: int) -> Seq<
    Seq<char>,
>
    decreases s.len() - i,
{
    if i < 0 || i >= s.len() {
        seq![s.subrange(start, s.len() as int)]
    } else {
        let (next, split) = split_step(st, s[i], d);
        if split {
            seq![s.subrange(start, i)] + pieces_from(s, d, i + 1, next, i + 1)
        } else {
            pieces_from(s, d, i + 1, next, start)
        }
    }
}

/// How many characters of `s` from index `i` on, scanned from state `st`,
/// are a delimiter `d` outside brackets and quotes.
pub open spec fn top_level_count_from(s: Seq<char>, d: char, i: int, st: ScanState) -> nat
    decreases s.len() - i,
{
    if i < 0 || i >= s.len() {
        0
    } else {
        let (next, split) = split_step(st, s[i], d);
        (if split {
            1nat
        } else {
            0nat
        }) + top_level_count_from(s, d, i + 1, next)
    }
}

/// How many delimiters `d` of `s` stand outside brackets and quotes.
pub open spec fn top_level_count(s: Seq<char>, d: char) -> nat {
    top_level_count_from(s, d, 0, initial_scan())
}

/// `split_top_level`: `s` cut at each `d` outside brackets and quotes.
pub open spec fn split_spec(s: Seq<char>, d: char) -> Seq<Seq<char>> {
    pieces_from(s, d, 0, initial_scan(), 0)
}

/// The index of the first top-level `d` in `s` at or after `i`.
pub open spec fn first_split_from(s: Seq<char>, d: char, i: int, st: ScanState) -> Option<int>
    decreases s.len() - i,
{
    if i < 0 || i >= s.len() {
        None
    } else {
        let (next, split) = split_step(st, s[i], d);
        if split {
            Some(i)
        } else {
            first_split_from(s, d, i + 1, next)
        }
    }
}

/// `split_once_top_level`: `s` cut at its first top-level `d`.
pub open spec fn split_once_spec(s: Seq<char>, d: char) -> Option<(Seq<char>, Seq<char>)> {
    match first_split_from(s, d, 0, initial_scan()) {
        Some(k) => Some((s.take(k), s.skip(k + 1))),
        None => None,
    }
}

/// The scan of `matching_delimiter` from index `i` with `depth` open delimiters.
pub open spec fn match_from(
    s: Seq<char>,
    i: int,
    depth: int,
    q: Option<char>,
    e: bool,
    open: char,
    close: char,
) -> Option<int>
    decreases s.len() - i,
{
    if i < 0 || i >= s.len() {
        None
    } else {
        let c = s[i];
        match q {
            Some(active) => {
                if e {
                    match_from(s, i + 1, depth, q, false, open, close)
                } else if c == '\\' {
                    match_from(s, i + 1, depth, q, true, open, close)
                } else if c == active {
                    match_from(s, i + 1, depth, None, e, open, close)
                } else {
                    match_from(s, i + 1, depth, q, e, open, close)
                }
            },
            None => {
                if is_quote_char(c) {
                    match_from(s, i + 1, depth, Some(c), e, open, close)
                } else if c == open {
                    match_from(s, i + 1, depth + 1, q, e, open, close)
                } else if c == close {
                    if depth - 1 == 0 {
                        Some(i)
                    } else {
                        match_from(s, i + 1, depth - 1, q, e, open, close)
                    }
                } else {
                    match_from(s, i + 1, depth, q, e, open, close)
                }
            },
        }
    }
}

/// `matching_delimiter`: the index of the `close` that balances the
/// delimiters from `open_index` on, quoted text aside.
pub open spec fn matching_spec(s: Seq<char>, open_index: int, open: char, close: char) -> Option<
    int,
> {
    match_from(s, open_index, 0, None, false, open, close)
}

/// One `key: value` entry of an object literal, from one top-level piece.
pub open spec fn entry_of(piece: Seq<char>) -> Option<(Seq<char>, Seq<char>)> {
    let entry = trim(piece);
    if entry.len() == 0 {
        None
    } else {
        let (key, value) = match split_once_spec(entry, ':') {
            Some(kv) => kv,
            None => (entry, Seq::empty()),
        };
        Some((trim_quotes(trim(key)), trim(value)))
    }
}

pub open spec fn entries_of(pieces: Seq<Seq<char>>) -> Seq<(Seq<char>, Seq<char>)>
    decreases pieces.len(),
{
    if pieces.len() == 0 {
        Seq::empty()
    } else {
        let rest = entries_of(pieces.drop_last());
        match entry_of(pieces.last()) {
            Some(e) => rest.push(e),
            None => rest,
        }
    }
}

/// `object_entries`: the `key: value` entries of an object literal's body.
pub open spec fn object_entries_spec(s: Seq<char>) -> Seq<(Seq<char>, Seq<char>)> {
    entries_of(split_spec(s, ','))
}

/// The value of the first entry, from index `i` on, whose key is `prop`.
pub open spec fn value_from(pieces: Seq<Seq<char>>, prop: Seq<char>, i: int) -> Option<Seq<char>>
    decreases pieces.len() - i,
{
    if i < 0 || i >= pieces.len() {
        None
    } else {
        match split_once_spec(pieces[i], ':') {
            Some((key, value)) => {
                if trim_quotes(trim(key)) == prop {
                    Some(trim(value))
                } else {
                    value_from(pieces, prop, i + 1)
                }
            },
            None => value_from(pieces, prop, i + 1),
        }
    }
}

/// The body between a `{` at `open` and its matching `}`, as
/// `get(open + 1..close)` gives it.
pub open spec fn braced_body(s: Seq<char>, open: int) -> Option<Seq<char>> {
    match matching_spec(s, open, '{', '}') {
        Some(close) => {
            if open + 1 <= close <= s.len() {
                Some(s.subrange(open + 1, close))
            } else {
                None
            }
        },
        None => None,
    }
}

/// The body of the first `{ ... }` in `s`.
pub open spec fn first_braced_body(s: Seq<char>) -> Option<Seq<char>> {
    match find(s, seq!['{']) {
        Some(open) => braced_body(s, open),
        None => None,
    }
}

/// `property_value`: the trimmed value of property `prop` of the first
/// object literal in `e`.
pub open spec fn property_value_spec(e: Seq<char>, prop: Seq<char>) -> Option<Seq<char>> {
    match first_braced_body(e) {
        Some(root) => value_from(split_spec(root, ','), prop, 0),
        None => None,
    }
}

/// `property_object`: the body of the object literal that is the value of `prop`.
pub open spec fn property_object_spec(e: Seq<char>, prop: Seq<char>) -> Option<Seq<char>> {
    match property_value_spec(e, prop) {
        Some(v) => first_braced_body(v),
        None => None,
    }
}

// ---------------------------------------------------------------------------
// Executable scanner
// ---------------------------------------------------------------------------

pub open spec fn scan_view(b: usize, k: usize, p: usize, q: Option<char>, e: bool) -> ScanState {
    (b as nat, k as nat, p as nat, q, e)
}

/// One step of the scanner: the next state and whether `c` splits.
fn step(b: usize, k: usize, p: usize, q: Option<char>, e: bool, c: char, d: char) -> (r: (
    usize,
    usize,
    usize,
    Option<char>,
    bool,
    bool,
))
    requires
        b < usize::MAX,
        k < usize::MAX,
        p < usize::MAX,
    ensures
        split_step(scan_view(b, k, p, q, e), c, d) == (scan_view(r.0, r.1, r.2, r.3, r.4), r.5),
        r.0 <= b + 1,
        r.1 <= k + 1,
        r.2 <= p + 1,
{
    match q {
        Some(active) => {
            if e {
                (b, k, p, q, false, false)
            } else if c == '\\' {
                (b, k, p, q, true, false)
            } else if c == active {
                (b, k, p, None, e, false)
            } else {
                (b, k, p, q, e, false)
            }
        },
        None => {
            if c == '\'' || c == '"' || c == '`' {
                (b, k, p, Some(c), e, false)
            } else if c == '{' {
                (b + 1, k, p, q, e, false)
            } else if c == '}' {
                (if b > 0 { b - 1 } else { 0 }, k, p, q, e, false)
            } else if c == '[' {
                (b, k + 1, p, q, e, false)
            } else if c == ']' {
                (b, if k > 0 { k - 1 } else { 0 }, p, q, e, false)
            } else if c == '(' {
                (b, k, p + 1, q, e, false)
            } else if c == ')' {
                (b, k, if p > 0 { p - 1 } else { 0 }, q, e, false)
            } else if c == d && b == 0 && k == 0 && p == 0 {
                (b, k, p, q, e, true)
            } else {
                (b, k, p, q, e, false)
            }
        },
    }
}

/// `s` cut at each `delimiter` that stands outside brackets and quotes.
pub fn split_top_level(s: &Vec<char>, delimiter: char) -> (r: Vec<Vec<char>>)
    ensures
        r.deep_view() == split_spec(s@, delimiter),
        r.len() >= 1,
{
    let mut result: Vec<Vec<char>> = Vec::new();
    let mut start: usize = 0;
    let mut b: usize = 0;
    let mut k: usize = 0;
    let mut p: usize = 0;
    let mut q: Option<char> = None;
    let mut e: bool = false;
    let mut i: usize = 0;
    while i < s.len()
        invariant
            start <= i <= s.len(),
            b <= i,
            k <= i,
            p <= i,
            result.deep_view() + pieces_from(s@, delimiter, i as int, scan_view(b, k, p, q, e), start as int)
                == split_spec(s@, delimiter),
        decreases s.len() - i,
    {
        let ghost before = result.deep_view();
        let (b2, k2, p2, q2, e2, split) = step(b, k, p, q, e, s[i], delimiter);
        if split {
            let piece = slice_of(s, start, i);
            result.push(piece);
            assert(result.deep_view() =~= before.push(piece@));
            assert(before + (seq![s@.subrange(start as int, i as int)] + pieces_from(s@, delimiter, i + 1, scan_view(b2, k2, p2, q2, e2), i + 1)) == before.push(piece@) + pieces_from(s@, delimiter, i + 1, scan_view(b2, k2, p2, q2, e2), i + 1));
            start = i + 1;
        }
        b = b2;
        k = k2;
        p = p2;
        q = q2;
        e = e2;
        i += 1;
    }
    let ghost before = result.deep_view();
    let last = slice_of(s, start, s.len());
    result.push(last);
    assert(result.deep_view() =~= before.push(last@));
    assert(before + seq![s@.subrange(start as int, s@.len() as int)] == before.push(last@));
    result
}

/// `s` cut at its first top-level `delimiter`.
pub fn split_once_top_level(s: &Vec<char>, delimiter: char) -> (r: Option<(Vec<char>, Vec<char>)>)
    ensures
        r matches Some((a, b)) ==> split_once_spec(s@, delimiter) == Some((a@, b@)),
        r is None ==> split_once_spec(s@, delimiter) is None,
{
    let mut b: usize = 0;
    let mut k: usize = 0;
    let mut p: usize = 0;
    let mut q: Option<char> = None;
    let mut e: bool = false;
    let mut i: usize = 0;
    while i < s.len()
        invariant
            i <= s.len(),
            b <= i,
            k <= i,
            p <= i,
            first_split_from(s@, delimiter, 0, initial_scan()) == first_split_from(
                s@,
                delimiter,
                i as int,
                scan_view(b, k, p, q, e),
            ),
        decreases s.len() - i,
    {
        let (b2, k2, p2, q2, e2, split) = step(b, k, p, q, e, s[i], delimiter);
        if split {
            let left = slice_of(s, 0, i);
            let right = slice_of(s, i + 1, s.len());
            assert(split_step(scan_view(b, k, p, q, e), s@[i as int], delimiter).1);
            assert(first_split_from(s@, delimiter, i as int, scan_view(b, k, p, q, e)) == Some(i as int));
            assert(first_split_from(s@, delimiter, 0, initial_scan()) == Some(i as int));
            assert(left@ =~= s@.take(i as int));
            assert(right@ =~= s@.skip(i + 1));
            assert(split_once_spec(s@, delimiter) is Some);
            assert(split_once_spec(s@, delimiter) == Some((s@.take(i as int), s@.skip(i + 1))));
            return Some((left, right));
        }
        b = b2;
        k = k2;
        p = p2;
        q = q2;
        e = e2;
        i += 1;
    }
    None
}

/// The index of the `close` that balances the delimiters of `s` from
/// `open_index` on, quoted text aside.
pub fn matching_delimiter(s: &Vec<char>, open_index: usize, open: char, close: char) -> (r:
    Option<usize>)
    requires
        open_index <= s.len(),
    ensures
        r matches Some(x) ==> matching_spec(s@, open_index as int, open, close) == Some(
            x as int,
        ),
        r is None ==> matching_spec(s@, open_index as int, open, close) is None,
{
    let mut depth: i128 = 0;
    let mut q: Option<char> = None;
    let mut e: bool = false;
    let mut i: usize = open_index;
    while i < s.len()
        invariant
            open_index <= i <= s.len(),
            -(i - open_index) <= depth <= i - open_index,
            matching_spec(s@, open_index as int, open, close) == match_from(
                s@,
                i as int,
                depth as int,
                q,
                e,
                open,
                close,
            ),
        decreases s.len() - i,
    {
        let c = s[i];
        let ghost d0 = depth;
        match q {
            Some(active) => {
                if e {
                    e = false;
                } else if c == '\\' {
                    e = true;
                } else if c == active {
                    q = None;
                }
            },
            None => {
                if c == '\'' || c == '"' || c == '`' {
                    q = Some(c);
                } else if c == open {
                    depth = depth + 1;
                } else if c == close {
                    depth = depth - 1;
                    if depth == 0 {
                        assert(match_from(s@, i as int, d0 as int, None, e, open, close) == Some(i as int));
                        assert(matching_spec(s@, open_index as int, open, close) == Some(i as int));
                        return Some(i);
                    }
                }
            },
        }
        i += 1;
    }
    None
}

/// The `key: value` entries of an object literal's body, keys stripped of
/// quotes, both trimmed; an entry without `:` has an empty value.
pub fn object_entries(source: &Vec<char>) -> (r: Vec<(Vec<char>, Vec<char>)>)
    ensures
        r.deep_view() == object_entries_spec(source@),
{
    let pieces = split_top_level(source, ',');
    let ghost pv = pieces.deep_view();
    let mut r: Vec<(Vec<char>, Vec<char>)> = Vec::new();
    let mut i: usize = 0;
    while i < pieces.len()
        invariant
            i <= pieces.len(),
            pv == pieces.deep_view(),
            pv == split_spec(source@, ','),
            r.deep_view() == entries_of(pv.take(i as int)),
        decreases pieces.len() - i,
    {
        assert(pv.take(i + 1).drop_last() == pv.take(i as int));
        assert(pv[i as int] == pieces[i as int]@);
        let entry = trimmed(&pieces[i]);
        if entry.len() > 0 {
            let (key, value) = match split_once_top_level(&entry, ':') {
                Some(kv) => kv,
                None => (entry, Vec::new()),
            };
            let key2 = unquoted(&trimmed(&key));
            let value2 = trimmed(&value);
            let ghost before = r.deep_view();
            r.push((key2, value2));
            assert(r.deep_view() =~= before.push((key2@, value2@)));
        }
        i += 1;
    }
    assert(pv.take(pieces.len() as int) == pv);
    r
}

/// The body of the `{ ... }` that opens at `open` in `value`.
fn braced(value: &Vec<char>, open: usize) -> (r: Option<Vec<char>>)
    requires
        open <= value.len(),
    ensures
        r matches Some(x) ==> braced_body(value@, open as int) == Some(x@),
        r is None ==> braced_body(value@, open as int) is None,
{
    match matching_delimiter(value, open, '{', '}') {
        Some(close) => {
            if open + 1 <= close && close <= value.len() {
                Some(slice_of(value, open + 1, close))
            } else {
                None
            }
        },
        None => None,
    }
}

/// The body of the first `{ ... }` in `value`.
fn first_braced(value: &Vec<char>) -> (r: Option<Vec<char>>)
    ensures
        r matches Some(x) ==> first_braced_body(value@) == Some(x@),
        r is None ==> first_braced_body(value@) is None,
{
    match find_char(value, '{') {
        Some(open) => {
            proof {
                lemma_find_bounds(value@, seq!['{'], 0);
            }
            braced(value, open)
        },
        None => None,
    }
}

/// The trimmed value of property `property` of the first object literal in
/// `expression`.
pub fn property_value(expression: &Vec<char>, property: &Vec<char>) -> (r: Option<Vec<char>>)
    ensures
        r matches Some(x) ==> property_value_spec(expression@, property@) == Some(x@),
        r is None ==> property_value_spec(expression@, property@) is None,
{
    let root = match first_braced(expression) {
        Some(root) => root,
        None => return None,
    };
    assert(first_braced_body(expression@) == Some(root@));
    let entries = split_top_level(&root, ',');
    let ghost pv = entries.deep_view();
    let mut i: usize = 0;
    while i < entries.len()
        invariant
            i <= entries.len(),
            pv == entries.deep_view(),
            pv == split_spec(root@, ','),
            first_braced_body(expression@) == Some(root@),
            value_from(pv, property@, 0) == value_from(pv, property@, i as int),
        decreases entries.len() - i,
    {
        assert(pv[i as int] == entries[i as int]@);
        match split_once_top_level(&entries[i], ':') {
            Some((key, value)) => {
                let name = unquoted(&trimmed(&key));
                if same(&name, property) {
                    let t = trimmed(&value);
                    assert(value_from(pv, property@, i as int) == Some(t@));
                    assert(property_value_spec(expression@, property@) == value_from(pv, property@, 0));
                    return Some(t);
                }
            },
            None => {},
        }
        i += 1;
    }
    None
}

/// The body of the object literal that is the value of `property`.
pub fn property_object(expression: &Vec<char>, property: &Vec<char>) -> (r: Option<Vec<char>>)
    ensures
        r matches Some(x) ==> property_object_spec(expression@, property@) == Some(x@),
        r is None ==> property_object_spec(expression@, property@) is None,
{
    match property_value(expression, property) {
        Some(value) => first_braced(&value),
        None => None,
    }
}

/// Whether the first object literal in `expression` has property `property`.
pub fn has_property(expression: &Vec<char>, property: &Vec<char>) -> (r: bool)
    ensures
        r == property_value_spec(expression@, property@) is Some,
{
    property_value(expression, property).is_some()
}

// ---------------------------------------------------------------------------
// Laws of splitting
// ---------------------------------------------------------------------------

proof fn lemma_join_prepend(x: Seq<char>, rest: Seq<Seq<char>>, sep: Seq<char>)
    requires
        rest.len() >= 1,
    ensures
        join(seq![x] + rest, sep) == x + sep + join(rest, sep),
    decreases rest.len(),
{
    let all = seq![x] + rest;
    if rest.len() == 1 {
        assert(all.drop_last() =~= seq![x]);
        assert(all.last() == rest[0]);
        assert(join(seq![x], sep) == x);
        assert(join(rest, sep) == rest[0]);
        assert(join(all, sep) == join(all.drop_last(), sep) + sep + all.last());
    } else {
        lemma_join_prepend(x, rest.drop_last(), sep);
        assert(all.drop_last() =~= seq![x] + rest.drop_last());
        assert(all.last() == rest.last());
        assert(join(all, sep) == join(all.drop_last(), sep) + sep + all.last());
        assert(join(rest, sep) == join(rest.drop_last(), sep) + sep + rest.last());
        assert(x + sep + join(rest.drop_last(), sep) + sep + rest.last() =~= x + sep + (join(
            rest.drop_last(),
            sep,
        ) + sep + rest.last()));
    }
}

proof fn lemma_split_is_delimiter(st: ScanState, c: char, d: char)
    ensures
        split_step(st, c, d).1 ==> c == d,
{
}

proof fn lemma_pieces_rejoin(s: Seq<char>, d: char, i: int, st: ScanState, start: int)
    requires
        0 <= start <= i <= s.len(),
    ensures
        pieces_from(s, d, i, st, start).len() >= 1,
        pieces_from(s, d, i, st, start).len() == 1 + top_level_count_from(s, d, i, st),
        join(pieces_from(s, d, i, st, start), seq![d]) == s.subrange(start, s.len() as int),
    decreases s.len() - i,
{
    if i < s.len() {
        let (next, split) = split_step(st, s[i], d);
        lemma_split_is_delimiter(st, s[i], d);
        if split {
            lemma_pieces_rejoin(s, d, i + 1, next, i + 1);
            let rest = pieces_from(s, d, i + 1, next, i + 1);
            lemma_join_prepend(s.subrange(start, i), rest, seq![d]);
            assert(s.subrange(start, i) + seq![d] + s.subrange(i + 1, s.len() as int)
                =~= s.subrange(start, s.len() as int));
        } else {
            lemma_pieces_rejoin(s, d, i + 1, next, start);
        }
    }
}

proof fn lemma_first_split(s: Seq<char>, d: char, i: int, st: ScanState)
    requires
        0 <= i,
    ensures
        first_split_from(s, d, i, st) matches Some(k) ==> i <= k < s.len() && s[k] == d,
    decreases s.len() - i,
{
    if i < s.len() {
        let (next, split) = split_step(st, s[i], d);
        lemma_split_is_delimiter(st, s[i], d);
        if !split {
            lemma_first_split(s, d, i + 1, next);
        }
    }
}

/// Splitting at top-level delimiters loses nothing: there is always at
/// least one piece, one more than there are delimiters outside brackets
/// and quotes; the pieces joined with the delimiter give back the text, and
/// the two halves of a split at the first delimiter do too.
pub proof fn lemma_split_rejoins(s: Seq<char>, d: char)
    ensures
        split_spec(s, d).len() >= 1,
        split_spec(s, d).len() == top_level_count(s, d) + 1,
        join(split_spec(s, d), seq![d]) == s,
        split_once_spec(s, d) matches Some((a, b)) ==> a + seq![d] + b == s,
{
    lemma_pieces_rejoin(s, d, 0, initial_scan(), 0);
    assert(s.subrange(0, s.len() as int) =~= s);
    lemma_first_split(s, d, 0, initial_scan());
    if let Some(k) = first_split_from(s, d, 0, initial_scan()) {
        assert(s.take(k) + seq![d] + s.skip(k + 1) =~= s);
    }
}

proof fn lemma_match_from(
    s: Seq<char>,
    i: int,
    depth: int,
    q: Option<char>,
    e: bool,
    open: char,
    close: char,
)
    requires
        0 <= i,
    ensures
        match_from(s, i, depth, q, e, open, close) matches Some(k) ==> i <= k < s.len() && s[k]
            == close,
    decreases s.len() - i,
{
    if i < s.len() {
        let c = s[i];
        match q {
            Some(active) => {
                if e {
                    lemma_match_from(s, i + 1, depth, q, false, open, close);
                } else if c == '\\' {
                    lemma_match_from(s, i + 1, depth, q, true, open, close);
                } else if c == active {
                    lemma_match_from(s, i + 1, depth, None, e, open, close);
                } else {
                    lemma_match_from(s, i + 1, depth, q, e, open, close);
                }
            },
            None => {
                if is_quote_char(c) {
                    lemma_match_from(s, i + 1, depth, Some(c), e, open, close);
                } else if c == open {
                    lemma_match_from(s, i + 1, depth + 1, q, e, open, close);
                } else if c == close {
                    lemma_match_from(s, i + 1, depth - 1, q, e, open, close);
                } else {
                    lemma_match_from(s, i + 1, depth, q, e, open, close);
                }
            },
        }
    }
}

/// The match of an opening delimiter is a closing one at or after it.
pub proof fn lemma_match_is_closing(s: Seq<char>, open_index: int, open: char, close: char)
    requires
        0 <= open_index,
    ensures
        matching_spec(s, open_index, open, close) matches Some(k) ==> open_index <= k < s.len()
            && s[k] == close,
{
    lemma_match_from(s, open_index, 0, None, false, open, close);
}

} // verus!
