//! Providers: the registry, what their replies hold, and which one is built.
use wdpkr_core::ai_providers::anthropic::{extract_text, AnthropicSummarizer, NoText};
use wdpkr_core::ai_providers::voyage::{
    batches, build_request_body, dimension_for_model, first_embedding, VoyageEmbedder, VoyageError,
};
use wdpkr_core::ai_providers::{names_text, names_with, providers, supports, Capability};
use wdpkr_core::chunk::Import;
use wdpkr_core::config::embed::EmbedConfig;
use wdpkr_core::config::summarizer::SummarizerConfig;
use wdpkr_core::embed::{build_embedder, embedder_identity, EmbedderChoice, EmbedderError};
use wdpkr_core::summarize::{prompts, FileSummaryInput, SymbolSummaryInput};

fn text_blocks(json: &str) -> Vec<Option<String>> {
    let v: serde_json::Value = serde_json::from_str(json).unwrap();
    v["content"]
        .as_array()
        .unwrap()
        .iter()
        .map(|b| b.get("text").and_then(|t| t.as_str()).map(String::from))
        .collect()
}

fn embeddings(json: &str) -> Vec<Vec<u32>> {
    let v: serde_json::Value = serde_json::from_str(json).unwrap();
    v["data"]
        .as_array()
        .unwrap()
        .iter()
        .map(|d| {
            d["embedding"]
                .as_array()
                .unwrap()
                .iter()
                .map(|x| (x.as_f64().unwrap() as f32).to_bits())
                .collect()
        })
        .collect()
}

fn embed_config(provider: &str, model: &str, voyage: &str, openai: &str) -> EmbedConfig {
    EmbedConfig {
        provider: provider.into(),
        model: model.into(),
        batch_size: 64,
        embed_mode: "summary".into(),
        voyage_api_key: voyage.into(),
        openai_api_key: openai.into(),
        ollama_host: "http://localhost:11434".into(),
    }
}

#[test]
fn parse_successful_response() {
    let json = r#"{
        "id": "msg_123",
        "type": "message",
        "role": "assistant",
        "content": [
            {
                "type": "text",
                "text": "Commission payment release service handling individual and batch payouts."
            }
        ],
        "model": "haiku-4-5-20251001",
        "stop_reason": "end_turn",
        "usage": { "input_tokens": 100, "output_tokens": 20 }
    }"#;
    let text = extract_text(&text_blocks(json)).unwrap();
    assert!(text.contains("Commission payment release"));
}

#[test]
fn parse_response_with_no_text_errors() {
    let err = extract_text(&text_blocks(r#"{ "content": [] }"#)).unwrap_err();
    assert_eq!(err.message(), "Anthropic API response contained no text content");
    assert_eq!(NoText.message(), err.message());
}

#[test]
fn parse_response_skips_non_text_blocks() {
    let json = r#"{
        "content": [
            { "type": "tool_use", "text": null },
            { "type": "text", "text": "The actual summary." }
        ]
    }"#;
    assert_eq!(extract_text(&text_blocks(json)).unwrap(), "The actual summary.");
}

#[test]
fn file_prompt_builds_valid_message() {
    let input = FileSummaryInput {
        file_path: "src/payments.rs".into(),
        content: "pub fn pay() {}".into(),
        imports: vec![Import { module: "anyhow".into(), names: vec!["Result".into()] }],
        language: "rust".into(),
    };
    let msg = prompts::file_user_message(&input);
    assert!(msg.contains("src/payments.rs"));
    assert!(msg.contains("pub fn pay()"));
    assert!(msg.contains("anyhow"));
}

#[test]
fn symbol_prompt_threads_file_summary() {
    let input = SymbolSummaryInput {
        symbol_name: "pay".into(),
        symbol_kind: "function".into(),
        body: "pub fn pay() {}".into(),
        signature: Some("pub fn pay()".into()),
        doc_comment: None,
        file_path: "src/payments.rs".into(),
        file_summary: "Payment processing service.".into(),
    };
    let msg = prompts::symbol_user_message(&input);
    assert!(msg.contains("Payment processing service."));
    assert!(msg.contains("pay"));
}

#[test]
fn custom_base_url() {
    let config = SummarizerConfig {
        provider: "anthropic".into(),
        model: "haiku-4-5-20251001".into(),
        api_key: "key".into(),
    };
    let s = AnthropicSummarizer::new(&config).unwrap().with_base_url("http://localhost:8080");
    assert_eq!(s.base_url, "http://localhost:8080");
    assert_eq!(s.messages_url(), "http://localhost:8080/v1/messages");
    assert_eq!(s.model_name(), "haiku-4-5-20251001");
}

#[test]
fn summarizer_without_key_is_refused() {
    let config = SummarizerConfig {
        provider: "anthropic".into(),
        model: "haiku-4-5-20251001".into(),
        api_key: String::new(),
    };
    assert!(AnthropicSummarizer::new(&config).is_err());
}

#[test]
fn voyage_embeds_but_does_not_summarize() {
    assert!(supports("voyage", Capability::Embed));
    assert!(!supports("voyage", Capability::Summarize));
}

#[test]
fn anthropic_summarizes_but_does_not_embed() {
    assert!(supports("anthropic", Capability::Summarize));
    assert!(!supports("anthropic", Capability::Embed));
}

#[test]
fn unknown_provider_supports_nothing() {
    assert!(!supports("cohere", Capability::Embed));
    assert!(!supports("cohere", Capability::Summarize));
}

#[test]
fn names_with_lists_in_registry_order() {
    assert_eq!(names_with(Capability::Embed), vec!["voyage", "openai", "ollama"]);
    assert_eq!(names_with(Capability::Summarize), vec!["anthropic"]);
}

#[test]
fn names_are_listed_with_commas() {
    assert_eq!(names_text(Capability::Embed), "voyage, openai, ollama");
    assert_eq!(providers().len(), 4);
}

#[test]
fn request_body_sets_input_type() {
    let doc = build_request_body("voyage-code-3", &["hello"], "document");
    assert_eq!(doc.input_type, "document");
    assert_eq!(doc.model, "voyage-code-3");
    assert_eq!(doc.input[0], "hello");

    let query = build_request_body("voyage-code-3", &["hello"], "query");
    assert_eq!(query.input_type, "query");
}

#[test]
fn dimension_lookup() {
    assert_eq!(dimension_for_model("voyage-code-3"), 1024);
    assert_eq!(dimension_for_model("voyage-3-lite"), 512);
    assert_eq!(dimension_for_model("unknown-model"), 1024);
}

#[test]
fn response_parsing() {
    let json = r#"{"data":[{"embedding":[0.1,0.2,0.3],"index":0}],"model":"voyage-code-3","usage":{"total_tokens":10}}"#;
    let data = embeddings(json);
    assert_eq!(data.len(), 1);
    let expected: Vec<u32> = [0.1f32, 0.2, 0.3].iter().map(|x| x.to_bits()).collect();
    assert_eq!(first_embedding(&data).unwrap(), expected);
}

#[test]
fn batch_response_parsing() {
    let json = r#"{"data":[{"embedding":[0.1,0.2],"index":0},{"embedding":[0.3,0.4],"index":1}],"model":"voyage-code-3","usage":{"total_tokens":20}}"#;
    assert_eq!(embeddings(json).len(), 2);
}

#[test]
fn empty_response_has_no_first_embedding() {
    let err = first_embedding(&Vec::new()).unwrap_err();
    assert_eq!(err, VoyageError::EmptyResult);
    assert!(!err.message().is_empty());
}

#[test]
fn constructor_requires_api_key() {
    let err = VoyageEmbedder::new(&embed_config("voyage", "voyage-code-3", "", "")).unwrap_err();
    assert_eq!(err, VoyageError::NoKey);
}

#[test]
fn constructor_succeeds_with_key() {
    let e = VoyageEmbedder::new(&embed_config("voyage", "voyage-code-3", "test-key", "")).unwrap();
    assert_eq!(e.dimension(), 1024);
    assert_eq!(e.max_input_tokens(), 16_000);
    assert_eq!(e.provider_name(), "voyage");
    assert_eq!(e.model_name(), "voyage-code-3");
}

#[test]
fn batches_cover_every_text_once() {
    assert_eq!(batches(0), Vec::<usize>::new());
    assert_eq!(batches(1), vec![1]);
    assert_eq!(batches(128), vec![128]);
    assert_eq!(batches(300), vec![128, 256, 300]);
}

#[test]
fn embedder_identity_format() {
    assert_eq!(embedder_identity("test", "fake-v1"), "test/fake-v1");
}

#[test]
fn identities_of_different_models_differ() {
    assert_ne!(embedder_identity("voyage", "a"), embedder_identity("voyage", "b"));
    assert_ne!(embedder_identity("voyage", "a"), embedder_identity("openai", "a"));
}

#[test]
fn factory_voyage_with_key() {
    match build_embedder(&embed_config("voyage", "voyage-code-3", "test-key", "")).unwrap() {
        EmbedderChoice::Voyage(e) => {
            assert_eq!(e.provider_name(), "voyage");
            assert_eq!(e.dimension(), 1024);
        }
        _ => panic!("expected voyage"),
    }
}

#[test]
fn factory_openai_with_key() {
    let choice =
        build_embedder(&embed_config("openai", "text-embedding-3-large", "", "test-key")).unwrap();
    assert!(matches!(choice, EmbedderChoice::OpenAi));
}

#[test]
fn factory_ollama_needs_no_key() {
    let choice = build_embedder(&embed_config("ollama", "nomic-embed-text", "", "")).unwrap();
    assert!(matches!(choice, EmbedderChoice::Ollama));
}

#[test]
fn factory_voyage_without_key_errors() {
    let err = build_embedder(&embed_config("voyage", "voyage-code-3", "", "")).unwrap_err();
    assert!(matches!(err, EmbedderError::Config(_)));
    assert!(err.message().contains("VOYAGE_API_KEY"), "got: {}", err.message());
}

#[test]
fn factory_unknown_provider_errors() {
    assert!(build_embedder(&embed_config("cohere", "embed-v3", "", "")).is_err());
}

#[test]
fn factory_refuses_a_summarizer() {
    let r = build_embedder(&embed_config("anthropic", "m", "", ""));
    assert!(r.is_err());
}
