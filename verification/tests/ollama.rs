use analyzer_core::ollama::{
    check_interpretation_request, interpretation_from_answer, parse_model_list, status_from,
    MAX_EXPRESSION_LENGTH,
};
use analyzer_core::{
    is_embedding_model, select_model, sql_prompt, AiSqlInterpretation, AnalysisError,
    CommandError, ListOutcome, OllamaModel, OllamaStatus,
};

/// The structured answer of the model, read as the desktop command reads it.
fn parse_sql_response(output: &str, model: &str) -> Result<AiSqlInterpretation, CommandError> {
    let value: serde_json::Value = serde_json::from_str(output).map_err(|error| {
        CommandError::internal(&format!("Ollama returned invalid structured SQL: {error}"))
    })?;
    let text = |field: &str| value.get(field).and_then(|v| v.as_str()).map(str::to_owned);
    let (Some(statement), Some(explanation)) = (text("statement"), text("explanation")) else {
        return Err(CommandError::internal("Ollama returned invalid structured SQL"));
    };
    let assumptions = value
        .get("assumptions")
        .and_then(|v| v.as_array())
        .map(|items| {
            items
                .iter()
                .filter_map(|item| item.as_str().map(str::to_owned))
                .collect::<Vec<_>>()
        })
        .unwrap_or_default();
    interpretation_from_answer(&statement, &explanation, assumptions, model)
}

/// The answer of the generate API, whose `response` field holds the model's
/// structured answer.
fn parse_generate_response(output: &str, model: &str) -> Result<AiSqlInterpretation, CommandError> {
    let value: serde_json::Value = serde_json::from_str(output).map_err(|error| {
        CommandError::internal(&format!("Ollama returned an invalid API response: {error}"))
    })?;
    let response = value
        .get("response")
        .and_then(|v| v.as_str())
        .ok_or_else(|| CommandError::internal("Ollama returned an invalid API response"))?;
    parse_sql_response(response, model)
}

fn model(name: &str, embedding_only: bool) -> OllamaModel {
    OllamaModel { name: name.to_owned(), embedding_only }
}

#[test]
fn identifies_embedding_models() {
    assert!(is_embedding_model("mxbai-embed-large:latest"));
    assert!(is_embedding_model("nomic-embed-text:latest"));
    assert!(!is_embedding_model("qwen3.5:9b"));
}

#[test]
fn prefers_a_generative_model_over_an_embedding_model() {
    let models = vec![
        OllamaModel {
            name: "mxbai-embed-large:latest".to_owned(),
            embedding_only: true,
        },
        OllamaModel {
            name: "qwen3.5:9b".to_owned(),
            embedding_only: false,
        },
    ];

    assert_eq!(select_model(&models, None), Some("qwen3.5:9b".to_owned()));
    assert_eq!(
        select_model(&models, Some("mxbai-embed-large:latest")),
        Some("qwen3.5:9b".to_owned())
    );
}

#[test]
fn parses_structured_sql_interpretation() {
    let response = parse_sql_response(
        r#"{"statement":"SELECT * FROM Event WHERE id = ?","explanation":"Reads one event.","assumptions":["Identifier is dynamic."]}"#,
        "qwen3.5:9b",
    )
    .expect("valid structured output should parse");

    assert_eq!(response.model, "qwen3.5:9b");
    assert!(response.statement.contains("WHERE id = ?"));
}

#[test]
fn parses_ollama_generate_api_response() {
    let response = parse_generate_response(
        r#"{"response":"{\"statement\":\"SELECT 1\",\"explanation\":\"Test.\",\"assumptions\":[]}"}"#,
        "qwen3.5:9b",
    )
    .expect("Ollama API response should parse");

    assert_eq!(response.statement, "SELECT 1");
}

#[test]
fn embedding_names_are_matched_in_any_ascii_case() {
    assert!(is_embedding_model("All-MiniLM-EMBED"));
    assert!(is_embedding_model("NOMIC"));
    assert!(!is_embedding_model("llama3.1:8b"));
    assert!(!is_embedding_model(""));
}

#[test]
fn selection_falls_back_in_order() {
    let models = vec![
        model("nomic-embed-text:latest", true),
        model("llama3.1:8b", false),
        model("qwen3.5:9b", false),
    ];
    assert_eq!(select_model(&models, Some("qwen3.5:9b")), Some("qwen3.5:9b".to_owned()));
    assert_eq!(select_model(&models, Some("missing")), Some("llama3.1:8b".to_owned()));
    let only_embeddings = vec![model("nomic-embed-text:latest", true), model("mxbai", true)];
    assert_eq!(
        select_model(&only_embeddings, None),
        Some("nomic-embed-text:latest".to_owned())
    );
    assert_eq!(select_model(&[].to_vec(), Some("qwen3.5:9b")), None);
}

#[test]
fn lists_models_after_the_header() {
    let output = "NAME                        ID              SIZE      MODIFIED\nqwen3.5:9b                  abc123          6.6 GB    2 days ago\n\n   mxbai-embed-large:latest  def456  669 MB  3 weeks ago\r\n";
    let models = parse_model_list(output);
    assert_eq!(models.len(), 2);
    assert_eq!(models[0].name, "qwen3.5:9b");
    assert!(!models[0].embedding_only);
    assert_eq!(models[1].name, "mxbai-embed-large:latest");
    assert!(models[1].embedding_only);
    assert!(parse_model_list("").is_empty());
    assert!(parse_model_list("NAME ID SIZE MODIFIED").is_empty());
}

#[test]
fn status_reports_each_outcome() {
    let missing = status_from(&ListOutcome::NotInstalled, None);
    assert!(!missing.installed && !missing.running && !missing.annotation_ready);
    assert_eq!(missing.message, "Ollama is not installed");

    let failed = status_from(&ListOutcome::InspectFailed("permission denied".to_owned()), None);
    assert!(failed.installed && !failed.running);
    assert_eq!(failed.message, "Could not inspect Ollama: permission denied");

    let erred = status_from(&ListOutcome::ListFailed(b"  could not connect to ollama app\n".to_vec()), None);
    assert!(erred.installed && !erred.running && erred.models.is_empty());
    assert_eq!(erred.message, "could not connect to ollama app");

    let empty = status_from(&ListOutcome::Listed(b"NAME ID SIZE MODIFIED\n".to_vec()), None);
    assert!(empty.running && !empty.annotation_ready && empty.selected_model.is_none());
    assert_eq!(empty.message, "Ollama is running, but no models are installed");

    let embeddings = status_from(
        &ListOutcome::Listed(b"NAME ID\nnomic-embed-text:latest x\n".to_vec()),
        None,
    );
    assert!(!embeddings.annotation_ready);
    assert_eq!(embeddings.selected_model.as_deref(), Some("nomic-embed-text:latest"));
    assert_eq!(
        embeddings.message,
        "Only embedding models are available; annotation remains disabled"
    );

    let ready = status_from(
        &ListOutcome::Listed(b"NAME ID\nnomic-embed-text:latest x\nqwen3.5:9b y\n".to_vec()),
        Some("nomic-embed-text:latest"),
    );
    assert!(ready.annotation_ready);
    assert_eq!(ready.selected_model.as_deref(), Some("qwen3.5:9b"));
    assert_eq!(ready.models.len(), 2);
    assert_eq!(ready.message, "A local generative model is ready for SQL interpretation");
}

#[test]
fn invalid_utf8_in_the_listing_is_replaced() {
    let status = status_from(&ListOutcome::Listed(b"NAME\nqwen\xff:9b x\n".to_vec()), None);
    assert_eq!(status.models.len(), 1);
    assert_eq!(status.models[0].name, "qwen\u{FFFD}:9b");
}

fn ready_status() -> OllamaStatus {
    status_from(
        &ListOutcome::Listed(b"NAME ID\nnomic-embed-text:latest x\nqwen3.5:9b y\n".to_vec()),
        None,
    )
}

#[test]
fn interpretation_needs_an_installed_generative_model() {
    let status = ready_status();
    assert!(check_interpretation_request(&status, "qwen3.5:9b", "prisma.user.findMany()").is_ok());

    let embedding = check_interpretation_request(&status, "nomic-embed-text:latest", "x").unwrap_err();
    assert_eq!(embedding.code, "internal_error");
    assert_eq!(embedding.message, "A configured local generative Ollama model is required");

    let missing = check_interpretation_request(&status, "llama3.1:8b", "x").unwrap_err();
    assert_eq!(missing.message, "A configured local generative Ollama model is required");

    let not_ready = status_from(&ListOutcome::NotInstalled, None);
    assert!(check_interpretation_request(&not_ready, "qwen3.5:9b", "x").is_err());
}

#[test]
fn interpretation_refuses_long_expressions() {
    let status = ready_status();
    let at_limit = "a".repeat(MAX_EXPRESSION_LENGTH);
    assert!(check_interpretation_request(&status, "qwen3.5:9b", &at_limit).is_ok());
    let too_long = "a".repeat(MAX_EXPRESSION_LENGTH + 1);
    let error = check_interpretation_request(&status, "qwen3.5:9b", &too_long).unwrap_err();
    assert_eq!(error.message, "The Prisma expression is too large for local interpretation");
    let wide = "é".repeat(MAX_EXPRESSION_LENGTH / 2 + 1);
    assert!(check_interpretation_request(&status, "qwen3.5:9b", &wide).is_err());
}

#[test]
fn prompt_embeds_the_call_and_the_preview() {
    let prompt = sql_prompt("event", "findMany", "prisma.event.findMany()", Some("SELECT *\nFROM Event"));
    assert!(prompt.starts_with("You translate Prisma ORM calls into readable SQL-shaped explanations for a local code-analysis tool.\n\nReturn exactly one JSON object"));
    assert!(prompt.ends_with("\n\nPrisma model: event\nOperation: findMany\nPrisma call:\nprisma.event.findMany()\n\nDeterministic compiler preview:\nSELECT *\nFROM Event"));
    let without = sql_prompt("event", "count", "prisma.event.count()", None);
    assert!(without.ends_with("Deterministic compiler preview:\nUnavailable"));
    assert!(without.contains("- Do not use markdown fences.\n"));
}

#[test]
fn answers_are_trimmed_and_blank_statements_refused() {
    let answer = interpretation_from_answer("  SELECT 1 \n", " Test. ", vec!["none".to_owned()], "m")
        .expect("a statement was given");
    assert_eq!(answer.statement, "SELECT 1");
    assert_eq!(answer.explanation, "Test.");
    assert_eq!(answer.assumptions, vec!["none".to_owned()]);
    assert_eq!(answer.model, "m");

    let blank = interpretation_from_answer(" \t\n", "x", Vec::new(), "m").unwrap_err();
    assert_eq!(blank.code, "internal_error");
    assert_eq!(blank.message, "Ollama returned an empty SQL interpretation");
}

#[test]
fn analysis_errors_become_command_errors() {
    let cases = [
        (AnalysisError::ProjectNotFound("/x".to_owned()), "project_not_found", "project path does not exist: /x"),
        (AnalysisError::ProjectNotDirectory("/x".to_owned()), "project_not_directory", "project path is not a directory: /x"),
        (
            AnalysisError::Canonicalize { path: "/x".to_owned(), message: "denied".to_owned() },
            "canonicalize_failed",
            "failed to canonicalize /x: denied",
        ),
        (
            AnalysisError::ReadFile { path: "/x/a.ts".to_owned(), message: "gone".to_owned() },
            "read_failed",
            "failed to read /x/a.ts: gone",
        ),
        (
            AnalysisError::TooManyFiles(20000),
            "too_many_files",
            "project contains more than the configured limit of 20000 source files",
        ),
    ];
    for (error, code, message) in cases {
        let command = CommandError::from_analysis(&error);
        assert_eq!(command.code, code);
        assert_eq!(command.message, message);
        assert_eq!(error.message(), message);
    }
    let internal = CommandError::internal("boom");
    assert_eq!(internal.code, "internal_error");
    assert_eq!(internal.message, "boom");
}
