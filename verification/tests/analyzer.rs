use analyzer_core::analyzer::{
    admit_source_file, is_prisma_file_name, relative_path_after_strip, is_supported_extension, slash_separated,
    sort_files_by_path, within_size_limit, DEFAULT_MAX_FILES, DEFAULT_MAX_FILE_BYTES,
};
use analyzer_core::{
    analyze_prisma, build_report, check_totals, content_hash, is_allowed_entry, is_prisma_schema,
    is_supported_source, normalized_relative_path, summarize, validate_project_root,
    AnalysisError, AnalysisLimits, DiagnosticSeverity, FileAnalysis, ParserDiagnostic,
};

fn prisma_file(path: &str, source: &str) -> FileAnalysis {
    analyze_prisma(path, source, content_hash(source))
}

#[test]
fn default_limits() {
    let limits = AnalysisLimits::default();
    assert_eq!(limits.max_files, 20_000);
    assert_eq!(limits.max_file_bytes, 2 * 1024 * 1024);
    assert_eq!(DEFAULT_MAX_FILES, 20_000);
    assert_eq!(DEFAULT_MAX_FILE_BYTES, 2_097_152);
    assert!(within_size_limit(2_097_152, &limits));
    assert!(!within_size_limit(2_097_153, &limits));
}

#[test]
fn project_root_must_exist_and_be_a_directory() {
    assert!(matches!(
        validate_project_root("/missing", false, false),
        Err(AnalysisError::ProjectNotFound(ref p)) if p == "/missing"
    ));
    assert!(matches!(
        validate_project_root("/etc/hosts", true, false),
        Err(AnalysisError::ProjectNotDirectory(ref p)) if p == "/etc/hosts"
    ));
    assert!(validate_project_root("/srv/app", true, true).is_ok());
}

#[test]
fn skips_generated_and_vendored_directories() {
    for name in ["node_modules", "target", "dist", "build", ".next", ".git"] {
        assert!(!is_allowed_entry(name));
    }
    for name in ["src", "prisma", ".github", "dist2", "Build"] {
        assert!(is_allowed_entry(name));
    }
}

#[test]
fn recognizes_sources_by_name_and_extension() {
    assert!(is_prisma_schema("prisma/schema.prisma"));
    assert!(!is_prisma_schema("prisma/schema.prisma.bak"));
    assert!(!is_prisma_schema("prisma/other.prisma"));
    for path in ["a.js", "a.jsx", "a.mjs", "a.cjs", "src/a.ts", "a.tsx", "a.mts", "a.cts", "prisma/schema.prisma"] {
        assert!(is_supported_source(path), "{path}");
    }
    for path in ["a.json", "a.d", "README.md", "ts", ".ts", "a.prisma"] {
        assert!(!is_supported_source(path), "{path}");
    }
    assert!(is_prisma_file_name(Some("schema.prisma")));
    assert!(!is_prisma_file_name(None));
    assert!(is_supported_extension(Some("tsx")));
    assert!(!is_supported_extension(Some("TS")));
    assert!(!is_supported_extension(None));
}

#[test]
fn relative_paths_use_forward_slashes() {
    assert_eq!(normalized_relative_path("/root/project", "/root/project/src/app.ts"), "src/app.ts");
    assert_eq!(normalized_relative_path("/elsewhere", "/root/project/src/app.ts"), "/root/project/src/app.ts");
    assert_eq!(slash_separated("src\\routes\\a.ts"), "src/routes/a.ts");
    assert!(!normalized_relative_path("/r", "/r/a\\b.ts").contains('\\'));
}

#[test]
fn admits_supported_files_up_to_the_limit() {
    let mut paths = Vec::new();
    assert!(admit_source_file(&mut paths, "a.ts", true, 2).is_ok());
    assert!(admit_source_file(&mut paths, "README.md", true, 2).is_ok());
    assert!(admit_source_file(&mut paths, "dir.ts", false, 2).is_ok());
    assert!(admit_source_file(&mut paths, "b.js", true, 2).is_ok());
    assert_eq!(paths, vec!["a.ts".to_owned(), "b.js".to_owned()]);
    let error = admit_source_file(&mut paths, "c.tsx", true, 2).unwrap_err();
    assert!(matches!(error, AnalysisError::TooManyFiles(2)));
    assert_eq!(paths.len(), 3);
}

#[test]
fn content_hashes_are_blake3_hex() {
    assert_eq!(
        content_hash(""),
        "af1349b9f5f9a1a6a0404dea36dcc9499bcb25c9adc112b7cc9a93cae41f3262"
    );
    let hash = content_hash("model User {}");
    assert_eq!(hash.len(), 64);
    assert!(hash.chars().all(|c| c.is_ascii_digit() || ('a'..='f').contains(&c)));
    assert_ne!(hash, content_hash("model User { }"));
}

#[test]
fn summary_adds_up_the_files() {
    let mut broken = prisma_file("b/schema.prisma", "enum Role {\n}\n");
    broken.diagnostics.push(ParserDiagnostic {
        message: "unexpected token".to_owned(),
        severity: DiagnosticSeverity::Error,
        span: None,
    });
    let files = vec![prisma_file("a/schema.prisma", "model A {\n}\nmodel B {\n}\n"), broken];
    let summary = summarize(&files);
    assert_eq!(summary.total_files, 2);
    assert_eq!(summary.parsed_files, 1);
    assert_eq!(summary.failed_files, 1);
    assert_eq!(summary.parsed_files + summary.failed_files, summary.total_files);
    assert_eq!(summary.total_bytes, 24 + 14);
    assert_eq!(summary.prisma_models, 2);
    assert_eq!(summary.prisma_enums, 1);
    assert_eq!(summary.diagnostics, 1);
    assert_eq!(summary.routes, 0);
}

#[test]
fn report_orders_files_by_path() {
    let files = vec![
        prisma_file("z/schema.prisma", "model Z {\n}\n"),
        prisma_file("a/schema.prisma", "model A {\n}\n"),
        prisma_file("m/schema.prisma", ""),
    ];
    let sorted = sort_files_by_path(files.clone());
    let paths: Vec<&str> = sorted.iter().map(|f| f.path.as_str()).collect();
    assert_eq!(paths, vec!["a/schema.prisma", "m/schema.prisma", "z/schema.prisma"]);

    let report = build_report("/project".to_owned(), 42, files);
    assert_eq!(report.root, "/project");
    assert_eq!(report.analyzed_at_unix_ms, 42);
    let paths: Vec<&str> = report.files.iter().map(|f| f.path.as_str()).collect();
    assert_eq!(paths, vec!["a/schema.prisma", "m/schema.prisma", "z/schema.prisma"]);
    assert_eq!(report.summary.total_files, 3);
    assert_eq!(report.summary.prisma_models, 2);
    assert!(report.contracts.is_empty());
}

#[test]
fn summary_and_metrics_default_to_zero() {
    let summary = analyzer_core::AnalysisSummary::default();
    assert_eq!(summary.total_files + summary.parsed_files + summary.failed_files, 0);
    assert_eq!(summary.total_bytes, 0);
    assert_eq!(summary.diagnostics, 0);
    let metrics = analyzer_core::FileMetrics::default();
    assert_eq!(metrics.imports + metrics.functions + metrics.classes + metrics.calls, 0);
    assert_eq!(metrics.routes + metrics.prisma_models + metrics.prisma_enums, 0);
}

#[test]
fn totals_that_overflow_are_refused() {
    let small = prisma_file("a.prisma", "model A {\n}\n");
    assert!(check_totals(&vec![small.clone(), small.clone()]));
    assert!(check_totals(&Vec::new()));
    let mut huge = small.clone();
    huge.byte_length = u64::MAX;
    assert!(check_totals(&vec![huge.clone()]));
    assert!(!check_totals(&vec![huge.clone(), small.clone()]));
    let mut many = small.clone();
    many.metrics.calls = usize::MAX;
    assert!(check_totals(&vec![many.clone()]));
    assert!(!check_totals(&vec![small, many.clone(), many]));
}

#[test]
fn relative_path_is_the_stripped_rest_or_the_path() {
    assert_eq!(relative_path_after_strip("C:\\p\\src\\a.ts", Some("src\\a.ts")), "src/a.ts");
    assert_eq!(relative_path_after_strip("/other/b.ts", None), "/other/b.ts");
    assert_eq!(relative_path_after_strip("x\\y.ts", None), "x/y.ts");
    assert_eq!(normalized_relative_path("/p", "/other/b.ts"), "/other/b.ts");
}
