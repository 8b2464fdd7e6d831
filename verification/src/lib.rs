//! Static analysis of a TypeScript backend and its Prisma schema: the files,
//! declarations, calls and routes it holds, and the contract of each route.
pub mod analyzer;
pub mod digest;
pub mod model;
pub mod object_literal;
pub mod ollama;
pub mod oxc_facts;
pub mod paths;
pub mod prisma;
pub mod relations;
pub mod sort;
pub mod sql_interpreter;
pub mod text;

pub use analyzer::{
    build_report, check_totals, content_hash, is_allowed_entry, is_prisma_schema, is_supported_source,
    normalized_relative_path, summarize, validate_project_root, AnalysisError, AnalysisLimits,
    AnalysisReport,
};
pub use model::{
    AnalysisSummary, ApiContract, CallFact, ContractEdge, ContractEdgeKind, ContractNode,
    ContractNodeKind, DataAccessFact, DataAccessKind, DiagnosticSeverity, FileAnalysis,
    FileMetrics, InterpretedSql, OllamaModel, OllamaStatus, ParserDiagnostic, RouteFact,
    SourceSpan, SqlEvidenceSource, SymbolFact, SymbolKind,
};
pub use ollama::{
    is_embedding_model, select_model, sql_prompt, AiSqlInterpretation, CommandError, ListOutcome,
};
pub use oxc_facts::{CallAction, FactCollector};
pub use prisma::{analyze_prisma, parse_declaration};
pub use relations::build_contracts;
pub use sql_interpreter::interpret_prisma_call;
