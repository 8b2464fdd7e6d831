//! Which files of a project are analyzed, the limits that apply, and how the
//! facts of each file become the report.
use vstd::prelude::*;
use vstd::string::StringSliceAdditionalSpecFns;

use crate::digest::{blake3_hex, blake3_hex_of, is_lower_hex_digit};
use crate::model::{AnalysisSummary, ApiContract, FileAnalysis};
use crate::paths::{
    extension_of, file_name_of, known_file_name, known_rest, name_extension, strip_prefix_of,
};
use crate::relations::{build_contracts, contract_views, contracts_spec};
use crate::sort::{
    lemma_count_repeated, lemma_count_single, lemma_sort_elements, lemma_sort_multiset,
    lemma_sort_sorted, lemma_sorted_same_elements, sorted_by, stable_sort, stable_sort_by,
};
use crate::text::{
    append, append_str, chars_of, contains, decimal, decimal_of, is, lemma_seq_lt_order, less,
    replace_char, seq_lt, string_of,
};

verus! {

/// How many source files a project may have.
pub const DEFAULT_MAX_FILES: usize = 20_000;

/// The largest file, in bytes, that is read; larger ones are skipped.
pub const DEFAULT_MAX_FILE_BYTES: u64 = 2 * 1024 * 1024;

/// Bounds on the work one analysis does.
#[derive(Debug, Clone, Copy)]
pub struct AnalysisLimits {
    pub max_files: usize,
    pub max_file_bytes: u64,
}

impl Default for AnalysisLimits {
    /// 20 000 files of at most 2 MiB each.
    fn default() -> (r: Self)
        ensures
            r.max_files == DEFAULT_MAX_FILES,
            r.max_file_bytes == DEFAULT_MAX_FILE_BYTES,
    {
        AnalysisLimits { max_files: DEFAULT_MAX_FILES, max_file_bytes: DEFAULT_MAX_FILE_BYTES }
    }
}

/// Why a project could not be analyzed. Paths are given as text; the
/// operating system's own error is given by its message.
#[derive(Debug, Clone)]
pub enum AnalysisError {
    ProjectNotFound(String),
    ProjectNotDirectory(String),
    Canonicalize { path: String, message: String },
    ReadFile { path: String, message: String },
    TooManyFiles(usize),
}

/// The message that describes an error.
pub open spec fn error_text(e: AnalysisError) -> Seq<char> {
    match e {
        AnalysisError::ProjectNotFound(p) => "project path does not exist: "@ + p@,
        AnalysisError::ProjectNotDirectory(p) => "project path is not a directory: "@ + p@,
        AnalysisError::Canonicalize { path, message } => "failed to canonicalize "@ + path@
            + ": "@ + message@,
        AnalysisError::ReadFile { path, message } => "failed to read "@ + path@ + ": "@
            + message@,
        AnalysisError::TooManyFiles(n) => "project contains more than the configured limit of "@
            + decimal(n as nat) + " source files"@,
    }
}

impl AnalysisError {
    /// The message that describes this error.
    pub fn message(&self) -> (r: String)
        ensures
            r@ == error_text(*self),
    {
        let mut text: Vec<char> = Vec::new();
        match self {
            AnalysisError::ProjectNotFound(p) => {
                append_str(&mut text, "project path does not exist: ");
                append_str(&mut text, p.as_str());
            },
            AnalysisError::ProjectNotDirectory(p) => {
                append_str(&mut text, "project path is not a directory: ");
                append_str(&mut text, p.as_str());
            },
            AnalysisError::Canonicalize { path, message } => {
                append_str(&mut text, "failed to canonicalize ");
                append_str(&mut text, path.as_str());
                append_str(&mut text, ": ");
                append_str(&mut text, message.as_str());
            },
            AnalysisError::ReadFile { path, message } => {
                append_str(&mut text, "failed to read ");
                append_str(&mut text, path.as_str());
                append_str(&mut text, ": ");
                append_str(&mut text, message.as_str());
            },
            AnalysisError::TooManyFiles(n) => {
                append_str(&mut text, "project contains more than the configured limit of ");
                append(&mut text, &decimal_of(*n as u64));
                append_str(&mut text, " source files");
            },
        }
        string_of(&text)
    }
}

/// Checks that the project root exists and is a directory, as the file
/// system reported (`exists`, `is_dir`).
pub fn validate_project_root(root: &str, exists: bool, is_dir: bool) -> (r: Result<(), AnalysisError>)
    ensures
        !exists ==> (r matches Err(AnalysisError::ProjectNotFound(p)) && p@ == root@),
        exists && !is_dir ==> (r matches Err(AnalysisError::ProjectNotDirectory(p)) && p@
            == root@),
        exists && is_dir ==> r is Ok,
{
    if !exists {
        return Err(AnalysisError::ProjectNotFound(root.to_string()));
    }
    if !is_dir {
        return Err(AnalysisError::ProjectNotDirectory(root.to_string()));
    }
    Ok(())
}

// ---------------------------------------------------------------------------
// Choosing files
// ---------------------------------------------------------------------------

/// Directories and files whose name is one of these are not walked into.
pub open spec fn is_skipped_name(name: Seq<char>) -> bool {
    name == "node_modules"@ || name == "target"@ || name == "dist"@ || name == "build"@ || name
        == ".next"@ || name == ".git"@
}

/// Whether the walk enters the entry named `name`.
pub fn is_allowed_entry(name: &str) -> (r: bool)
    ensures
        r == !is_skipped_name(name@),
{
    let n = chars_of(name);
    !(is(&n, "node_modules") || is(&n, "target") || is(&n, "dist") || is(&n, "build") || is(
        &n,
        ".next",
    ) || is(&n, ".git"))
}

/// The extensions of the scripts that are analyzed.
pub open spec fn is_script_extension(e: Seq<char>) -> bool {
    e == "js"@ || e == "jsx"@ || e == "mjs"@ || e == "cjs"@ || e == "ts"@ || e == "tsx"@ || e
        == "mts"@ || e == "cts"@
}

/// Whether a file named `file_name` (`Path::file_name`) is a Prisma schema.
pub fn is_prisma_file_name(file_name: Option<&str>) -> (r: bool)
    ensures
        r == (file_name matches Some(n) && n@ == "schema.prisma"@),
{
    match file_name {
        Some(n) => is(&chars_of(n), "schema.prisma"),
        None => false,
    }
}

/// Whether a file with extension `extension` (`Path::extension`) is a script
/// that is analyzed.
pub fn is_supported_extension(extension: Option<&str>) -> (r: bool)
    ensures
        r == (extension matches Some(e) && is_script_extension(e@)),
{
    match extension {
        Some(e) => {
            let e = chars_of(e);
            is(&e, "js") || is(&e, "jsx") || is(&e, "mjs") || is(&e, "cjs") || is(&e, "ts") || is(
                &e,
                "tsx",
            ) || is(&e, "mts") || is(&e, "cts")
        },
        None => false,
    }
}

/// Whether a file named `n` is analyzed: a Prisma schema or a script.
pub open spec fn supported_name(n: Seq<char>) -> bool {
    n == "schema.prisma"@ || (name_extension(n) matches Some(e) && is_script_extension(e))
}

/// Whether the file at `path` is a Prisma schema: its file name is
/// `schema.prisma`.
pub fn is_prisma_schema(path: &str) -> (r: bool)
    ensures
        r ==> contains(path@, "schema.prisma"@),
        known_file_name(path@) matches Some(n) ==> r == (n == "schema.prisma"@),
{
    let name = file_name_of(path);
    match &name {
        Some(n) => is_prisma_file_name(Some(n.as_str())),
        None => is_prisma_file_name(None),
    }
}

/// Whether the file at `path` is analyzed: a Prisma schema or a script.
pub fn is_supported_source(path: &str) -> (r: bool)
    ensures
        r ==> contains(path@, "schema.prisma"@) || exists|e: Seq<char>|
            #[trigger] is_script_extension(e) && contains(path@, "."@ + e),
        known_file_name(path@) matches Some(n) ==> r == supported_name(n),
{
    if is_prisma_schema(path) {
        return true;
    }
    let extension = extension_of(path);
    match &extension {
        Some(e) => is_supported_extension(Some(e.as_str())),
        None => false,
    }
}

/// `text` with `\` separators written as `/`.
pub fn slash_separated(text: &str) -> (r: String)
    ensures
        r@ == replace_char(text@, '\\', '/'),
{
    let chars = chars_of(text);
    let mut out: Vec<char> = Vec::new();
    let mut i: usize = 0;
    while i < chars.len()
        invariant
            i <= chars.len(),
            out@ == replace_char(chars@.take(i as int), '\\', '/'),
        decreases chars.len() - i,
    {
        out.push(if chars[i] == '\\' { '/' } else { chars[i] });
        assert(replace_char(chars@.take(i + 1), '\\', '/') =~= replace_char(
            chars@.take(i as int),
            '\\',
            '/',
        ).push(if chars@[i as int] == '\\' { '/' } else { chars@[i as int] }));
        i += 1;
    }
    assert(chars@.take(chars.len() as int) =~= chars@);
    string_of(&out)
}

/// The relative path of `path` given what `Path::strip_prefix` left of it
/// under the root: that rest, or `path` itself where the root is not a
/// prefix of it, with `/` separators.
pub fn relative_path_after_strip(path: &str, stripped: Option<&str>) -> (r: String)
    ensures
        r@ == replace_char(
            match stripped {
                Some(rest) => rest@,
                None => path@,
            },
            '\\',
            '/',
        ),
{
    match stripped {
        Some(rest) => slash_separated(rest),
        None => slash_separated(path),
    }
}

/// The path of `path` under `root`, with `/` separators: `path` itself
/// where `root` is not a prefix of it.
pub fn normalized_relative_path(root: &str, path: &str) -> (r: String)
    ensures
        !r@.contains('\\'),
        known_rest(path@, root@) matches Some(rest) ==> r@ == rest,
{
    let stripped = strip_prefix_of(path, root);
    let r = match &stripped {
        Some(rest) => relative_path_after_strip(path, Some(rest.as_str())),
        None => relative_path_after_strip(path, None),
    };
    assert forall|i: int| 0 <= i < r@.len() implies r@[i] != '\\' by {}
    proof {
        if let Some(rest) = known_rest(path@, root@) {
            assert(replace_char(rest, '\\', '/') =~= rest);
        }
    }
    r
}

/// Adds `path` to the files found so far when it is a supported source file
/// (`is_file` as the file system reported), failing once more than
/// `max_files` have been found.
pub fn admit_source_file(paths: &mut Vec<String>, path: &str, is_file: bool, max_files: usize) -> (r:
    Result<(), AnalysisError>)
    ensures
        final(paths).deep_view() == old(paths).deep_view() || final(paths).deep_view() == old(
            paths,
        ).deep_view().push(path@),
        final(paths)@.len() != old(paths)@.len() ==> is_file,
        !is_file ==> final(paths).deep_view() == old(paths).deep_view(),
        r is Err <==> (final(paths)@.len() != old(paths)@.len() && final(paths)@.len() > max_files),
        r matches Err(e) ==> e == AnalysisError::TooManyFiles(max_files),
        is_file && (known_file_name(path@) matches Some(n) && supported_name(n))
            ==> final(paths).deep_view() == old(paths).deep_view().push(path@),
        is_file && (known_file_name(path@) matches Some(n) && !supported_name(n))
            ==> final(paths).deep_view() == old(paths).deep_view() && r is Ok,
{
    if is_file && is_supported_source(path) {
        let ghost before = paths.deep_view();
        paths.push(path.to_string());
        assert(paths.deep_view() =~= before.push(path@));
        if paths.len() > max_files {
            return Err(AnalysisError::TooManyFiles(max_files));
        }
    }
    Ok(())
}

/// Whether a file of `byte_length` bytes is read under `limits`.
pub fn within_size_limit(byte_length: u64, limits: &AnalysisLimits) -> (r: bool)
    ensures
        r == (byte_length <= limits.max_file_bytes),
{
    byte_length <= limits.max_file_bytes
}

/// The BLAKE3 digest of a file's text, in lowercase hexadecimal.
pub fn content_hash(source_text: &str) -> (r: String)
    ensures
        r@ == blake3_hex(source_text.spec_bytes()),
        r@.len() == 64,
        forall|i: int| 0 <= i < r@.len() ==> is_lower_hex_digit(#[trigger] r@[i]),
{
    blake3_hex_of(source_text.as_bytes())
}

// ---------------------------------------------------------------------------
// The report
// ---------------------------------------------------------------------------

/// A per-file quantity that the summary adds up.
#[derive(Clone, Copy)]
pub enum Measure {
    Bytes,
    Imports,
    Functions,
    Classes,
    Calls,
    Routes,
    PrismaModels,
    PrismaEnums,
    Diagnostics,
    /// 1 for a file without diagnostics.
    Parsed,
    /// 1 for a file with diagnostics.
    Failed,
}

/// The quantity `m` of file `f`.
pub open spec fn measure(f: FileAnalysis, m: Measure) -> int {
    match m {
        Measure::Bytes => f.byte_length as int,
        Measure::Imports => f.metrics.imports as int,
        Measure::Functions => f.metrics.functions as int,
        Measure::Classes => f.metrics.classes as int,
        Measure::Calls => f.metrics.calls as int,
        Measure::Routes => f.metrics.routes as int,
        Measure::PrismaModels => f.metrics.prisma_models as int,
        Measure::PrismaEnums => f.metrics.prisma_enums as int,
        Measure::Diagnostics => f.diagnostics@.len() as int,
        Measure::Parsed => if f.diagnostics@.len() == 0 {
            1
        } else {
            0
        },
        Measure::Failed => if f.diagnostics@.len() > 0 {
            1
        } else {
            0
        },
    }
}

/// The sum of the quantity `m` over `files`.
pub open spec fn sum_of(files: Seq<FileAnalysis>, m: Measure) -> int
    decreases files.len(),
{
    if files.len() == 0 {
        0
    } else {
        sum_of(files.drop_last(), m) + measure(files.last(), m)
    }
}

/// Every total of `files` fits its field.
pub open spec fn totals_fit(files: Seq<FileAnalysis>) -> bool {
    &&& sum_of(files, Measure::Bytes) <= u64::MAX
    &&& sum_of(files, Measure::Imports) <= usize::MAX
    &&& sum_of(files, Measure::Functions) <= usize::MAX
    &&& sum_of(files, Measure::Classes) <= usize::MAX
    &&& sum_of(files, Measure::Calls) <= usize::MAX
    &&& sum_of(files, Measure::Routes) <= usize::MAX
    &&& sum_of(files, Measure::PrismaModels) <= usize::MAX
    &&& sum_of(files, Measure::PrismaEnums) <= usize::MAX
    &&& sum_of(files, Measure::Diagnostics) <= usize::MAX
}

/// The totals of `files`.
pub open spec fn summary_spec(files: Seq<FileAnalysis>) -> AnalysisSummary {
    AnalysisSummary {
        total_files: files.len() as usize,
        parsed_files: sum_of(files, Measure::Parsed) as usize,
        failed_files: sum_of(files, Measure::Failed) as usize,
        total_bytes: sum_of(files, Measure::Bytes) as u64,
        imports: sum_of(files, Measure::Imports) as usize,
        functions: sum_of(files, Measure::Functions) as usize,
        classes: sum_of(files, Measure::Classes) as usize,
        calls: sum_of(files, Measure::Calls) as usize,
        routes: sum_of(files, Measure::Routes) as usize,
        prisma_models: sum_of(files, Measure::PrismaModels) as usize,
        prisma_enums: sum_of(files, Measure::PrismaEnums) as usize,
        diagnostics: sum_of(files, Measure::Diagnostics) as usize,
    }
}

proof fn lemma_sum_nonneg(files: Seq<FileAnalysis>, m: Measure)
    ensures
        sum_of(files, m) >= 0,
    decreases files.len(),
{
    if files.len() > 0 {
        lemma_sum_nonneg(files.drop_last(), m);
    }
}

proof fn lemma_sum_prefix(files: Seq<FileAnalysis>, m: Measure, i: int)
    requires
        0 <= i <= files.len(),
    ensures
        0 <= sum_of(files.take(i), m) <= sum_of(files, m),
    decreases files.len() - i,
{
    lemma_sum_nonneg(files.take(i), m);
    if i < files.len() {
        lemma_sum_prefix(files, m, i + 1);
        assert(files.take(i + 1).drop_last() =~= files.take(i));
    } else {
        assert(files.take(i) =~= files);
    }
}

/// The summary adds each quantity of each file to its own total: over no
/// files every total is zero, and one more file adds its byte length to
/// `total_bytes`, its imports, functions, classes, calls, routes, Prisma
/// models and enums to the totals of the same name, its diagnostics to
/// `diagnostics`, and one to `parsed_files` or `failed_files` as it has no
/// diagnostics or some.
pub proof fn lemma_summary_adds_each_file(files: Seq<FileAnalysis>, f: FileAnalysis)
    requires
        totals_fit(files.push(f)),
        files.len() < usize::MAX,
    ensures
        summary_spec(Seq::empty()) == (AnalysisSummary {
            total_files: 0,
            parsed_files: 0,
            failed_files: 0,
            total_bytes: 0,
            imports: 0,
            functions: 0,
            classes: 0,
            calls: 0,
            routes: 0,
            prisma_models: 0,
            prisma_enums: 0,
            diagnostics: 0,
        }),
        ({
            let a = summary_spec(files);
            let b = summary_spec(files.push(f));
            &&& b.total_files == a.total_files + 1
            &&& b.total_bytes == a.total_bytes + f.byte_length
            &&& b.imports == a.imports + f.metrics.imports
            &&& b.functions == a.functions + f.metrics.functions
            &&& b.classes == a.classes + f.metrics.classes
            &&& b.calls == a.calls + f.metrics.calls
            &&& b.routes == a.routes + f.metrics.routes
            &&& b.prisma_models == a.prisma_models + f.metrics.prisma_models
            &&& b.prisma_enums == a.prisma_enums + f.metrics.prisma_enums
            &&& b.diagnostics == a.diagnostics + f.diagnostics@.len()
            &&& b.parsed_files == a.parsed_files + if f.diagnostics@.len() == 0 {
                1int
            } else {
                0int
            }
            &&& b.failed_files == a.failed_files + if f.diagnostics@.len() > 0 {
                1int
            } else {
                0int
            }
        }),
{
    let g = files.push(f);
    assert(g.drop_last() =~= files);
    assert(g.last() == f);
    assert forall|m: Measure| #[trigger] sum_of(g, m) == sum_of(files, m) + measure(f, m) by {}
    assert forall|m: Measure| #[trigger] sum_of(files, m) >= 0 by {
        lemma_sum_nonneg(files, m);
    }
    lemma_parsed_and_failed_files(g);
    lemma_parsed_and_failed_files(files);
}

/// Every file is counted once in the summary: as parsed when it has no
/// diagnostics, as failed when it has some.
pub proof fn lemma_parsed_and_failed_files(files: Seq<FileAnalysis>)
    ensures
        0 <= sum_of(files, Measure::Parsed),
        0 <= sum_of(files, Measure::Failed),
        sum_of(files, Measure::Parsed) + sum_of(files, Measure::Failed) == files.len(),
    decreases files.len(),
{
    if files.len() > 0 {
        lemma_parsed_and_failed_files(files.drop_last());
    }
}

proof fn lemma_totals_prefix(files: Seq<FileAnalysis>, i: int)
    requires
        0 <= i <= files.len(),
        totals_fit(files),
    ensures
        totals_fit(files.take(i)),
        forall|m: Measure| #[trigger] sum_of(files.take(i), m) >= 0,
{
    assert forall|m: Measure| #[trigger] sum_of(files.take(i), m) >= 0 by {
        lemma_sum_nonneg(files.take(i), m);
    }
    lemma_sum_prefix(files, Measure::Bytes, i);
    lemma_sum_prefix(files, Measure::Imports, i);
    lemma_sum_prefix(files, Measure::Functions, i);
    lemma_sum_prefix(files, Measure::Classes, i);
    lemma_sum_prefix(files, Measure::Calls, i);
    lemma_sum_prefix(files, Measure::Routes, i);
    lemma_sum_prefix(files, Measure::PrismaModels, i);
    lemma_sum_prefix(files, Measure::PrismaEnums, i);
    lemma_sum_prefix(files, Measure::Diagnostics, i);
}

/// The quantity `m` of `file`.
fn measure_value(file: &FileAnalysis, m: Measure) -> (r: u128)
    ensures
        r == measure(*file, m),
        r <= u64::MAX,
{
    match m {
        Measure::Bytes => file.byte_length as u128,
        Measure::Imports => file.metrics.imports as u128,
        Measure::Functions => file.metrics.functions as u128,
        Measure::Classes => file.metrics.classes as u128,
        Measure::Calls => file.metrics.calls as u128,
        Measure::Routes => file.metrics.routes as u128,
        Measure::PrismaModels => file.metrics.prisma_models as u128,
        Measure::PrismaEnums => file.metrics.prisma_enums as u128,
        Measure::Diagnostics => file.diagnostics.len() as u128,
        Measure::Parsed => if file.diagnostics.len() == 0 {
            1
        } else {
            0
        },
        Measure::Failed => if file.diagnostics.len() > 0 {
            1
        } else {
            0
        },
    }
}

/// Whether the sum of the quantity `m` over `files` is at most `bound`.
fn sum_within(files: &Vec<FileAnalysis>, m: Measure, bound: u128) -> (r: bool)
    requires
        bound <= u64::MAX,
    ensures
        r == (sum_of(files@, m) <= bound),
{
    let mut total: u128 = 0;
    let mut i: usize = 0;
    assert(files@.take(0) =~= Seq::<FileAnalysis>::empty());
    while i < files.len()
        invariant
            i <= files.len(),
            bound <= u64::MAX,
            total <= bound,
            total == sum_of(files@.take(i as int), m),
        decreases files.len() - i,
    {
        assert(files@.take(i + 1).drop_last() =~= files@.take(i as int));
        total = total + measure_value(&files[i], m);
        if total > bound {
            proof {
                lemma_sum_prefix(files@, m, i + 1);
            }
            return false;
        }
        i += 1;
    }
    assert(files@.take(files.len() as int) =~= files@);
    true
}

/// Whether every total over `files` fits its field, as `summarize` and
/// `build_report` require.
pub fn check_totals(files: &Vec<FileAnalysis>) -> (r: bool)
    ensures
        r == totals_fit(files@),
{
    sum_within(files, Measure::Bytes, u64::MAX as u128)
        && sum_within(files, Measure::Imports, usize::MAX as u128)
        && sum_within(files, Measure::Functions, usize::MAX as u128)
        && sum_within(files, Measure::Classes, usize::MAX as u128)
        && sum_within(files, Measure::Calls, usize::MAX as u128)
        && sum_within(files, Measure::Routes, usize::MAX as u128)
        && sum_within(files, Measure::PrismaModels, usize::MAX as u128)
        && sum_within(files, Measure::PrismaEnums, usize::MAX as u128)
        && sum_within(files, Measure::Diagnostics, usize::MAX as u128)
}

/// The totals over `files`: how many there are, how many parsed without
/// diagnostics, and the sums of their sizes, counts and diagnostics.
pub fn summarize(files: &Vec<FileAnalysis>) -> (r: AnalysisSummary)
    requires
        totals_fit(files@),
    ensures
        r == summary_spec(files@),
{
    let ghost fs = files@;
    let mut summary = AnalysisSummary {
        total_files: files.len(),
        parsed_files: 0,
        failed_files: 0,
        total_bytes: 0,
        imports: 0,
        functions: 0,
        classes: 0,
        calls: 0,
        routes: 0,
        prisma_models: 0,
        prisma_enums: 0,
        diagnostics: 0,
    };
    let mut i: usize = 0;
    while i < files.len()
        invariant
            i <= files.len(),
            fs == files@,
            totals_fit(fs),
            summary == (AnalysisSummary { total_files: fs.len() as usize, ..summary_spec(fs.take(i as int)) }),
        decreases files.len() - i,
    {
        let ghost prefix = fs.take(i as int);
        let ghost next = fs.take(i + 1);
        proof {
            assert(next.drop_last() =~= prefix);
            lemma_totals_prefix(fs, i + 1);
            lemma_totals_prefix(fs, i as int);
            lemma_parsed_and_failed_files(prefix);
            lemma_parsed_and_failed_files(next);
        }
        let file = &files[i];
        summary.total_bytes = summary.total_bytes + file.byte_length;
        summary.imports = summary.imports + file.metrics.imports;
        summary.functions = summary.functions + file.metrics.functions;
        summary.classes = summary.classes + file.metrics.classes;
        summary.calls = summary.calls + file.metrics.calls;
        summary.routes = summary.routes + file.metrics.routes;
        summary.prisma_models = summary.prisma_models + file.metrics.prisma_models;
        summary.prisma_enums = summary.prisma_enums + file.metrics.prisma_enums;
        summary.diagnostics = summary.diagnostics + file.diagnostics.len();
        if file.diagnostics.len() == 0 {
            summary.parsed_files = summary.parsed_files + 1;
        } else {
            summary.failed_files = summary.failed_files + 1;
        }
        i += 1;
    }
    assert(fs.take(files.len() as int) =~= fs);
    summary
}

/// `a` comes before `b` in the report: by path.
pub open spec fn path_lt(a: FileAnalysis, b: FileAnalysis) -> bool {
    seq_lt(a.path@, b.path@)
}

/// `files` ordered by path, files with equal paths in their first order.
pub open spec fn files_by_path(files: Seq<FileAnalysis>) -> Seq<FileAnalysis> {
    stable_sort(files, |a: FileAnalysis, b: FileAnalysis| path_lt(a, b))
}

/// `files` ordered by path, files with equal paths in their first order.
pub fn sort_files_by_path(files: Vec<FileAnalysis>) -> (r: Vec<FileAnalysis>)
    ensures
        r@ == files_by_path(files@),
{
    let lt = |a: &FileAnalysis, b: &FileAnalysis| -> (r: bool)
        ensures
            r == path_lt(*a, *b),
        { less(&chars_of(a.path.as_str()), &chars_of(b.path.as_str())) };
    stable_sort_by(files, &lt, Ghost(|a: FileAnalysis, b: FileAnalysis| path_lt(a, b)))
}

/// The result of analyzing a project.
#[derive(Debug, Clone)]
pub struct AnalysisReport {
    pub root: String,
    pub analyzed_at_unix_ms: u64,
    pub summary: AnalysisSummary,
    pub files: Vec<FileAnalysis>,
    pub contracts: Vec<ApiContract>,
}

/// The report on the files of the project at `root`, taken at
/// `analyzed_at_unix_ms`: the files ordered by path, the totals over them
/// (which their order does not change) and the contract of every route.
pub fn build_report(root: String, analyzed_at_unix_ms: u64, files: Vec<FileAnalysis>) -> (r:
    AnalysisReport)
    requires
        totals_fit(files@),
    ensures
        r.root == root,
        r.analyzed_at_unix_ms == analyzed_at_unix_ms,
        r.files@ == files_by_path(files@),
        r.summary == summary_spec(r.files@),
        r.summary == summary_spec(files@),
        contract_views(r.contracts@) == contracts_spec(r.files@),
{
    let ghost unsorted = files@;
    let files = sort_files_by_path(files);
    proof {
        lemma_sort_multiset(unsorted, |a: FileAnalysis, b: FileAnalysis| path_lt(a, b));
        lemma_summary_reordered(files@, unsorted);
    }
    let summary = summarize(&files);
    let contracts = build_contracts(files.as_slice());
    AnalysisReport { root, analyzed_at_unix_ms, summary, files, contracts }
}

/// The files of a report are ordered by path: none has a path strictly
/// before that of an earlier one.
pub proof fn lemma_files_ordered(files: Seq<FileAnalysis>)
    ensures
        forall|i: int, j: int|
            0 <= i < j < files.len() ==> !seq_lt(
                (#[trigger] files_by_path(files)[j]).path@,
                (#[trigger] files_by_path(files)[i]).path@,
            ),
{
    let lt = |a: FileAnalysis, b: FileAnalysis| path_lt(a, b);
    assert forall|a: FileAnalysis, b: FileAnalysis| #[trigger] lt(a, b) implies !lt(b, a) by {
        lemma_seq_lt_order(a.path@, b.path@, a.path@);
    }
    assert forall|a: FileAnalysis, b: FileAnalysis, c: FileAnalysis|
        #![trigger lt(a, b), lt(b, c)]
        !lt(a, b) && !lt(b, c) implies !lt(a, c) by {
        lemma_seq_lt_order(a.path@, b.path@, c.path@);
        lemma_seq_lt_order(c.path@, b.path@, a.path@);
        lemma_seq_lt_order(a.path@, c.path@, b.path@);
    }
    lemma_sort_sorted(files, lt);
    lemma_sort_elements(files, lt);
}

proof fn lemma_sum_remove(files: Seq<FileAnalysis>, m: Measure, k: int)
    requires
        0 <= k < files.len(),
    ensures
        sum_of(files, m) == sum_of(files.remove(k), m) + measure(files[k], m),
    decreases files.len(),
{
    let n = files.len() - 1;
    if k == n {
        assert(files.remove(k) =~= files.drop_last());
    } else {
        let d = files.drop_last();
        lemma_sum_remove(d, m, k);
        let r = files.remove(k);
        assert(r.drop_last() =~= d.remove(k));
        assert(r.last() == files.last());
        assert(d[k] == files[k]);
    }
}

/// Totals do not depend on the order of the files.
proof fn lemma_sum_reordered(a: Seq<FileAnalysis>, b: Seq<FileAnalysis>, m: Measure)
    requires
        a.to_multiset() == b.to_multiset(),
    ensures
        sum_of(a, m) == sum_of(b, m),
    decreases a.len(),
{
    broadcast use vstd::seq_lib::group_to_multiset_ensures;
    broadcast use vstd::multiset::group_multiset_axioms;

    vstd::seq_lib::to_multiset_len(a);
    vstd::seq_lib::to_multiset_len(b);
    if a.len() > 0 {
        let n = a.len() - 1;
        let x = a[n];
        assert(a.contains(x));
        assert(b.to_multiset().count(x) > 0);
        assert(b.contains(x));
        let k = choose|k: int| 0 <= k < b.len() && b[k] == x;
        assert(a.remove(n) =~= a.drop_last());
        assert(a.drop_last().to_multiset() == b.remove(k).to_multiset());
        lemma_sum_reordered(a.drop_last(), b.remove(k), m);
        lemma_sum_remove(b, m, k);
    }
}

/// The summary does not depend on the order of the files.
proof fn lemma_summary_reordered(a: Seq<FileAnalysis>, b: Seq<FileAnalysis>)
    requires
        a.to_multiset() == b.to_multiset(),
    ensures
        summary_spec(a) == summary_spec(b),
        forall|m: Measure| #[trigger] sum_of(a, m) == sum_of(b, m),
        totals_fit(a) == totals_fit(b),
{
    assert forall|m: Measure| #[trigger] sum_of(a, m) == sum_of(b, m) by {
        lemma_sum_reordered(a, b, m);
    }
    vstd::seq_lib::to_multiset_len(a);
    vstd::seq_lib::to_multiset_len(b);
    assert(sum_of(a, Measure::Parsed) == sum_of(b, Measure::Parsed));
    assert(sum_of(a, Measure::Failed) == sum_of(b, Measure::Failed));
    assert(sum_of(a, Measure::Bytes) == sum_of(b, Measure::Bytes));
    assert(sum_of(a, Measure::Imports) == sum_of(b, Measure::Imports));
    assert(sum_of(a, Measure::Functions) == sum_of(b, Measure::Functions));
    assert(sum_of(a, Measure::Classes) == sum_of(b, Measure::Classes));
    assert(sum_of(a, Measure::Calls) == sum_of(b, Measure::Calls));
    assert(sum_of(a, Measure::Routes) == sum_of(b, Measure::Routes));
    assert(sum_of(a, Measure::PrismaModels) == sum_of(b, Measure::PrismaModels));
    assert(sum_of(a, Measure::PrismaEnums) == sum_of(b, Measure::PrismaEnums));
    assert(sum_of(a, Measure::Diagnostics) == sum_of(b, Measure::Diagnostics));
}

/// No two files share a path.
pub open spec fn distinct_paths(files: Seq<FileAnalysis>) -> bool {
    forall|i: int, j: int| 0 <= i < j < files.len() ==> (#[trigger] files[i]).path@ != (#[trigger] files[j]).path@
}

proof fn lemma_sorted_paths_distinct(files: Seq<FileAnalysis>)
    requires
        distinct_paths(files),
    ensures
        forall|i: int, j: int|
            0 <= i < j < files_by_path(files).len() ==> (#[trigger] files_by_path(files)[i]).path@
                != (#[trigger] files_by_path(files)[j]).path@,
{
    let lt = |a: FileAnalysis, b: FileAnalysis| path_lt(a, b);
    let sorted = files_by_path(files);
    lemma_sort_multiset(files, lt);
    lemma_sort_elements(files, lt);
    assert forall|i: int, j: int| 0 <= i < j < sorted.len() implies (#[trigger] sorted[i]).path@
        != (#[trigger] sorted[j]).path@ by {
        if sorted[i].path@ == sorted[j].path@ {
            assert(files.contains(sorted[i]));
            assert(files.contains(sorted[j]));
            let p = choose|p: int| 0 <= p < files.len() && files[p] == sorted[i];
            let q = choose|q: int| 0 <= q < files.len() && files[q] == sorted[j];
            if p != q {
                if p < q {
                    assert(files[p].path@ != files[q].path@);
                } else {
                    assert(files[q].path@ != files[p].path@);
                }
            }
            assert(sorted[i] == sorted[j]);
            lemma_count_repeated(sorted, i, j);
            assert forall|r: int| 0 <= r < files.len() && r != p implies files[r] != files[p] by {
                if r < p {
                    assert(files[r].path@ != files[p].path@);
                } else {
                    assert(files[p].path@ != files[r].path@);
                }
            }
            lemma_count_single(files, p);
        }
    }
}

/// A report does not depend on the order in which its files were found:
/// the same files, no two with one path, in any order, give the same files
/// in the same order, the same totals and the same contracts.
pub proof fn lemma_report_order_independent(a: Seq<FileAnalysis>, b: Seq<FileAnalysis>)
    requires
        a.to_multiset() == b.to_multiset(),
        distinct_paths(a),
        distinct_paths(b),
    ensures
        files_by_path(a) == files_by_path(b),
        summary_spec(a) == summary_spec(b),
        contracts_spec(files_by_path(a)) == contracts_spec(files_by_path(b)),
{
    broadcast use vstd::seq_lib::group_to_multiset_ensures;

    let lt = |x: FileAnalysis, y: FileAnalysis| path_lt(x, y);
    let sa = files_by_path(a);
    let sb = files_by_path(b);
    lemma_files_ordered(a);
    lemma_files_ordered(b);
    lemma_sort_multiset(a, lt);
    lemma_sort_multiset(b, lt);
    lemma_sort_elements(a, lt);
    lemma_sort_elements(b, lt);
    lemma_sorted_paths_distinct(a);
    lemma_sorted_paths_distinct(b);
    assert forall|x: FileAnalysis, y: FileAnalysis| #[trigger] lt(x, y) implies !lt(y, x) by {
        lemma_seq_lt_order(x.path@, y.path@, x.path@);
    }
    assert forall|x: FileAnalysis, y: FileAnalysis, z: FileAnalysis|
        #![trigger lt(x, y), lt(y, z)]
        !lt(x, y) && !lt(y, z) implies !lt(x, z) by {
        lemma_seq_lt_order(x.path@, y.path@, z.path@);
        lemma_seq_lt_order(z.path@, y.path@, x.path@);
        lemma_seq_lt_order(x.path@, z.path@, y.path@);
    }
    assert(sorted_by(sa, lt));
    assert(sorted_by(sb, lt));
    assert forall|i: int, j: int| 0 <= i < j < sa.len() implies lt(#[trigger] sa[i], #[trigger] sa[j])
        || lt(sa[j], sa[i]) by {
        lemma_seq_lt_order(sa[i].path@, sa[j].path@, sa[i].path@);
    }
    assert forall|i: int, j: int| 0 <= i < j < sb.len() implies lt(#[trigger] sb[i], #[trigger] sb[j])
        || lt(sb[j], sb[i]) by {
        lemma_seq_lt_order(sb[i].path@, sb[j].path@, sb[i].path@);
    }
    lemma_sorted_same_elements(sa, sb, lt);
    lemma_summary_reordered(a, b);
}

} // verus!
