//! The parts of a file path that the analyzer reads, through `std::path`.
//!
//! How a path splits into components depends on the platform: on Windows
//! `\` separates components too, a leading `C:` or `//server/share` is a
//! prefix, and `\\?\` paths keep `/` as text. So nothing here names what
//! these calls return. Each states what holds of its result everywhere, and
//! what its documentation gives for paths that every platform reads the same
//! way: `/`-separated paths without `\`, without `:` in the file name and
//! not starting with `//`.
use vstd::prelude::*;

use crate::text::{contains, ends_with, starts_with};

verus! {

/// The characters after the last `/` of `s`; all of `s` where it has none.
pub open spec fn after_last_slash(s: Seq<char>) -> Seq<char>
    decreases s.len(),
{
    if s.len() == 0 || s.last() == '/' {
        Seq::empty()
    } else {
        after_last_slash(s.drop_last()).push(s.last())
    }
}

/// A name that every platform reads as one normal component: not empty,
/// without separators or `:`, and neither `.` nor `..`.
pub open spec fn plain_name(n: Seq<char>) -> bool {
    &&& n.len() > 0
    &&& !n.contains('/')
    &&& !n.contains('\\')
    &&& !n.contains(':')
    &&& n != "."@
    &&& n != ".."@
}

/// The file name of `path` where every platform agrees on it: the plain
/// name after the last `/` of a path without `\` that does not start with
/// `//`. `None` says only that this does not decide it.
pub open spec fn known_file_name(path: Seq<char>) -> Option<Seq<char>> {
    let n = after_last_slash(path);
    if !path.contains('\\') && !starts_with(path, "//"@) && plain_name(n) {
        Some(n)
    } else {
        None
    }
}

/// The index of the last `.` of `n`, or -1.
pub open spec fn last_dot(n: Seq<char>) -> int
    decreases n.len(),
{
    if n.len() == 0 {
        -1
    } else if n.last() == '.' {
        n.len() - 1
    } else {
        last_dot(n.drop_last())
    }
}

/// The extension of a file named `n`, as `Path::extension` documents it:
/// none without a `.`, none where the only `.` starts the name, else what
/// follows the last `.`.
pub open spec fn name_extension(n: Seq<char>) -> Option<Seq<char>> {
    let k = last_dot(n);
    if k <= 0 {
        None
    } else {
        Some(n.skip(k + 1))
    }
}

/// A relative `/`-separated path that every platform splits the same way
/// into normal components: not empty, without `\` or `:`, no separator at
/// either end or twice in a row, and no `.` component.
pub open spec fn clean_relative(s: Seq<char>) -> bool {
    &&& s.len() > 0
    &&& !s.contains('\\')
    &&& !s.contains(':')
    &&& s[0] != '/'
    &&& s.last() != '/'
    &&& !contains(s, "//"@)
    &&& s != "."@
    &&& !starts_with(s, "./"@)
    &&& !contains(s, "/./"@)
    &&& !ends_with(s, "/."@)
}

/// A base path that every platform reads the same way: a clean relative
/// path, or `/` followed by one.
pub open spec fn clean_base(b: Seq<char>) -> bool {
    clean_relative(b) || (b.len() > 1 && b[0] == '/' && clean_relative(b.drop_first()))
}

/// What remains of `path` after `base` where every platform agrees on it:
/// `path` is `base`, a `/` and a clean relative rest. `None` says only that
/// this does not decide it.
pub open spec fn known_rest(path: Seq<char>, base: Seq<char>) -> Option<Seq<char>> {
    let n = base.len() as int;
    if clean_base(base) && path.len() > n + 1 && path.take(n) == base && path[n] == '/'
        && clean_relative(path.skip(n + 1)) {
        Some(path.skip(n + 1))
    } else {
        None
    }
}

/// `Path::file_name`, as text: the final component of `path`, where there
/// is one that is not `..`. A component is a piece of the path's own text;
/// where every platform reads the path the same way, it is the name after
/// the last `/`.
#[verifier::external_body]
pub(crate) fn file_name_of(path: &str) -> (r: Option<String>)
    ensures
        r matches Some(name) ==> contains(path@, name@),
        known_file_name(path@) is Some ==> r is Some && r.unwrap()@ == known_file_name(
            path@,
        ).unwrap(),
{
    match std::path::Path::new(path).file_name() {
        Some(name) => Some(name.to_string_lossy().into_owned()),
        None => None,
    }
}

/// `Path::extension`, as text: the part of the file name after its final
/// `.`, where the name has a `.` that does not start it. So the extension
/// holds no `.`, and `.` followed by it is a piece of the path's text; where
/// every platform agrees on the file name, it is that name's extension.
#[verifier::external_body]
pub(crate) fn extension_of(path: &str) -> (r: Option<String>)
    ensures
        r matches Some(ext) ==> contains(path@, "."@ + ext@) && !ext@.contains('.'),
        known_file_name(path@) matches Some(n) ==> match name_extension(n) {
            Some(e) => r matches Some(ext) && ext@ == e,
            None => r is None,
        },
{
    match std::path::Path::new(path).extension() {
        Some(ext) => Some(ext.to_string_lossy().into_owned()),
        None => None,
    }
}

/// `Path::strip_prefix`, as text: the rest of `path` after the components
/// of `base`, or `None` where `base` is not a prefix of it component by
/// component. Where every platform reads both the same way and `path` is
/// `base`, a `/` and a clean rest, it is that rest.
#[verifier::external_body]
pub(crate) fn strip_prefix_of(path: &str, base: &str) -> (r: Option<String>)
    ensures
        known_rest(path@, base@) is Some ==> r is Some && r.unwrap()@ == known_rest(
            path@,
            base@,
        ).unwrap(),
{
    match std::path::Path::new(path).strip_prefix(base) {
        Ok(rest) => Some(rest.to_string_lossy().into_owned()),
        Err(_) => None,
    }
}

} // verus!
