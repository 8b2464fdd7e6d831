//! The facts and reports that the analyzer produces.
use vstd::prelude::*;

verus! {

/// Totals over all analyzed files.
#[derive(Debug, Clone)]
pub struct AnalysisSummary {
    pub total_files: usize,
    pub parsed_files: usize,
    pub failed_files: usize,
    pub total_bytes: u64,
    pub imports: usize,
    pub functions: usize,
    pub classes: usize,
    pub calls: usize,
    pub routes: usize,
    pub prisma_models: usize,
    pub prisma_enums: usize,
    pub diagnostics: usize,
}

impl Default for AnalysisSummary {
    /// All totals zero.
    fn default() -> (r: Self)
        ensures
            r.total_files == 0 && r.parsed_files == 0 && r.failed_files == 0 && r.total_bytes == 0,
            r.imports == 0 && r.functions == 0 && r.classes == 0 && r.calls == 0,
            r.routes == 0 && r.prisma_models == 0 && r.prisma_enums == 0 && r.diagnostics == 0,
    {
        AnalysisSummary {
            total_files: 0,
            parsed_files: 0,
            failed_files: 0,
            total_bytes: 0,
            imports: 0,
            functions: 0,
            classes: 0,
            calls: 0,
            routes: 0,
            prisma_models: 0,
            prisma_enums: 0,
            diagnostics: 0,
        }
    }
}

/// The facts extracted from one source file.
#[derive(Debug, Clone)]
pub struct FileAnalysis {
    pub id: String,
    pub path: String,
    pub language: String,
    pub content_hash: String,
    pub byte_length: u64,
    pub imports: Vec<String>,
    pub symbols: Vec<SymbolFact>,
    pub calls: Vec<CallFact>,
    pub routes: Vec<RouteFact>,
    pub diagnostics: Vec<ParserDiagnostic>,
    pub metrics: FileMetrics,
}

/// Per-file counts.
#[derive(Debug, Clone)]
pub struct FileMetrics {
    pub imports: usize,
    pub functions: usize,
    pub classes: usize,
    pub calls: usize,
    pub routes: usize,
    pub prisma_models: usize,
    pub prisma_enums: usize,
}

impl Default for FileMetrics {
    /// All counts zero.
    fn default() -> (r: Self)
        ensures
            r.imports == 0 && r.functions == 0 && r.classes == 0 && r.calls == 0,
            r.routes == 0 && r.prisma_models == 0 && r.prisma_enums == 0,
    {
        FileMetrics {
            imports: 0,
            functions: 0,
            classes: 0,
            calls: 0,
            routes: 0,
            prisma_models: 0,
            prisma_enums: 0,
        }
    }
}

/// A named declaration.
#[derive(Debug, Clone)]
pub struct SymbolFact {
    pub id: String,
    pub name: String,
    pub kind: SymbolKind,
    pub span: SourceSpan,
}

/// A symbol as the specifications read it.
pub struct SymbolView {
    pub id: Seq<char>,
    pub name: Seq<char>,
    pub kind: SymbolKind,
    pub span: SourceSpan,
}

impl View for SymbolFact {
    type V = SymbolView;

    open spec fn view(&self) -> SymbolView {
        SymbolView { id: self.id@, name: self.name@, kind: self.kind, span: self.span }
    }
}

#[derive(Debug, Clone, Copy, PartialEq, Eq, Structural)]
pub enum SymbolKind {
    Function,
    Class,
    Method,
    Schema,
    PrismaModel,
    PrismaEnum,
}

/// A call expression and the named function or method that contains it.
#[derive(Debug, Clone)]
pub struct CallFact {
    pub id: String,
    pub callee: String,
    pub expression: String,
    pub owner: Option<String>,
    pub span: SourceSpan,
}

/// A statically declared HTTP route.
#[derive(Debug, Clone)]
pub struct RouteFact {
    pub id: String,
    pub method: String,
    pub path: String,
    pub summary: Option<String>,
    pub span: SourceSpan,
    pub handler_span: Option<SourceSpan>,
    pub middleware: Vec<String>,
    pub schema_refs: Vec<String>,
    pub calls: Vec<CallFact>,
}

/// The graph of one endpoint: what guards it, what it calls, what it touches.
#[derive(Debug, Clone)]
pub struct ApiContract {
    pub id: String,
    pub method: String,
    pub path: String,
    pub summary: Option<String>,
    pub file_path: String,
    pub span: SourceSpan,
    pub nodes: Vec<ContractNode>,
    pub edges: Vec<ContractEdge>,
}

/// A contract as the specifications read it.
pub struct ContractView {
    pub id: Seq<char>,
    pub method: Seq<char>,
    pub path: Seq<char>,
    pub summary: Option<Seq<char>>,
    pub file_path: Seq<char>,
    pub span: SourceSpan,
    pub nodes: Seq<NodeView>,
    pub edges: Seq<EdgeView>,
}

impl View for ApiContract {
    type V = ContractView;

    open spec fn view(&self) -> ContractView {
        ContractView {
            id: self.id@,
            method: self.method@,
            path: self.path@,
            summary: opt_str(self.summary),
            file_path: self.file_path@,
            span: self.span,
            nodes: self.nodes@.map_values(|n: ContractNode| n@),
            edges: self.edges@.map_values(|e: ContractEdge| e@),
        }
    }
}

#[derive(Debug, Clone)]
pub struct ContractNode {
    pub id: String,
    pub label: String,
    pub detail: String,
    pub kind: ContractNodeKind,
    pub file_path: Option<String>,
    pub span: Option<SourceSpan>,
    pub order: usize,
    pub data_access: Option<DataAccessFact>,
}

/// A database operation found in source.
#[derive(Debug, Clone)]
pub struct DataAccessFact {
    pub model: String,
    pub operation: String,
    pub access: DataAccessKind,
    pub fingerprint: String,
    pub shape_fingerprint: String,
    pub expression: String,
    pub interpreted_sql: Option<InterpretedSql>,
}

/// A readable SQL-shaped preview of a Prisma call, with what it leaves open.
#[derive(Debug, Clone)]
pub struct InterpretedSql {
    pub statement: String,
    pub limitations: Vec<String>,
}

#[derive(Debug, Clone, Copy, PartialEq, Eq, Structural)]
pub enum SqlEvidenceSource {
    PrismaQueryEvent,
    Axiom,
}

#[derive(Debug, Clone, Copy, PartialEq, Eq, Structural)]
pub enum DataAccessKind {
    Read,
    Write,
}

#[derive(Debug, Clone, Copy, PartialEq, Eq, Structural)]
pub enum ContractNodeKind {
    Endpoint,
    Middleware,
    Service,
    Database,
    Schema,
    Helper,
    External,
}

/// An optional string as the specifications read it.
pub open spec fn opt_str(o: Option<String>) -> Option<Seq<char>> {
    match o {
        Some(s) => Some(s@),
        None => None,
    }
}

/// A preview as the specifications read it.
pub struct SqlView {
    pub statement: Seq<char>,
    pub limitations: Seq<Seq<char>>,
}

impl View for InterpretedSql {
    type V = SqlView;

    open spec fn view(&self) -> SqlView {
        SqlView { statement: self.statement@, limitations: self.limitations.deep_view() }
    }
}

pub struct DataAccessView {
    pub model: Seq<char>,
    pub operation: Seq<char>,
    pub access: DataAccessKind,
    pub fingerprint: Seq<char>,
    pub shape_fingerprint: Seq<char>,
    pub expression: Seq<char>,
    pub interpreted_sql: Option<SqlView>,
}

impl View for DataAccessFact {
    type V = DataAccessView;

    open spec fn view(&self) -> DataAccessView {
        DataAccessView {
            model: self.model@,
            operation: self.operation@,
            access: self.access,
            fingerprint: self.fingerprint@,
            shape_fingerprint: self.shape_fingerprint@,
            expression: self.expression@,
            interpreted_sql: match self.interpreted_sql {
                Some(x) => Some(x@),
                None => None,
            },
        }
    }
}

pub struct NodeView {
    pub id: Seq<char>,
    pub label: Seq<char>,
    pub detail: Seq<char>,
    pub kind: ContractNodeKind,
    pub file_path: Option<Seq<char>>,
    pub span: Option<SourceSpan>,
    pub order: usize,
    pub data_access: Option<DataAccessView>,
}

impl View for ContractNode {
    type V = NodeView;

    open spec fn view(&self) -> NodeView {
        NodeView {
            id: self.id@,
            label: self.label@,
            detail: self.detail@,
            kind: self.kind,
            file_path: opt_str(self.file_path),
            span: self.span,
            order: self.order,
            data_access: match self.data_access {
                Some(d) => Some(d@),
                None => None,
            },
        }
    }
}

pub struct EdgeView {
    pub id: Seq<char>,
    pub source: Seq<char>,
    pub target: Seq<char>,
    pub kind: ContractEdgeKind,
    pub label: Seq<char>,
}

impl View for ContractEdge {
    type V = EdgeView;

    open spec fn view(&self) -> EdgeView {
        EdgeView {
            id: self.id@,
            source: self.source@,
            target: self.target@,
            kind: self.kind,
            label: self.label@,
        }
    }
}

#[derive(Debug, Clone)]
pub struct ContractEdge {
    pub id: String,
    pub source: String,
    pub target: String,
    pub kind: ContractEdgeKind,
    pub label: String,
}

#[derive(Debug, Clone, Copy, PartialEq, Eq, Structural)]
pub enum ContractEdgeKind {
    Guards,
    Invokes,
    Reads,
    Writes,
    UsesSchema,
    Returns,
}

/// Byte offsets and 1-based lines of a piece of source.
#[derive(Debug, Clone, Copy, PartialEq, Eq, Structural)]
pub struct SourceSpan {
    pub start: u32,
    pub end: u32,
    pub start_line: Option<u32>,
    pub end_line: Option<u32>,
}

#[derive(Debug, Clone)]
pub struct ParserDiagnostic {
    pub message: String,
    pub severity: DiagnosticSeverity,
    pub span: Option<SourceSpan>,
}

#[derive(Debug, Clone, Copy, PartialEq, Eq, Structural)]
pub enum DiagnosticSeverity {
    Error,
    Warning,
}

/// What is known of the local Ollama installation.
#[derive(Debug, Clone)]
pub struct OllamaStatus {
    pub installed: bool,
    pub running: bool,
    pub models: Vec<OllamaModel>,
    pub selected_model: Option<String>,
    pub annotation_ready: bool,
    pub message: String,
}

#[derive(Debug, Clone)]
pub struct OllamaModel {
    pub name: String,
    pub embedding_only: bool,
}

} // verus!
