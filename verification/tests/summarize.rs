//! Summaries: inputs, prompts and the order in which they are asked for.
use wdpkr_core::chunk::{Import, SymbolChunk};
use wdpkr_core::config::summarizer::SummarizerConfig;
use wdpkr_core::summarize::prompts::{
    self, file_user_message, format_import, symbol_user_message, SYSTEM_PROMPT};
use wdpkr_core::summarize::rollup::{
    estimate_tokens, FileSummaryResult, SummaryAction, SummaryProgress, DEFAULT_TOKEN_THRESHOLD,
};
use wdpkr_core::summarize::{build_summarizer, BuildError, FileSummaryInput, SymbolSummaryInput};
use wdpkr_core::testing::mock_summarize::MockSummarizer;

fn summarize_all(
    s: &MockSummarizer,
    file: &FileSummaryInput,
    symbols: Vec<SymbolChunk>,
    token_threshold: usize,
) -> FileSummaryResult {
    let mut progress = SummaryProgress::new();
    loop {
        let action = progress.next_action(file, &symbols, token_threshold);
        let reply = match &action {
            SummaryAction::File(input) => s.summarize_file(input),
            SummaryAction::Symbol(input) => s.summarize_symbol(input),
            SummaryAction::Done(_) => String::new(),
        };
        if let SummaryAction::Done(result) = action {
            return result;
        }
        progress.record(&action, &reply);
    }
}

#[test]
fn file_summary_input_construction() {
    let input = FileSummaryInput {
        file_path: "src/main.rs".into(),
        content: "fn main() {}".into(),
        imports: vec![Import {
            module: "std::io".into(),
            names: vec!["Read".into()],
        }],
        language: "rust".into(),
    };
    assert_eq!(input.file_path, "src/main.rs");
    assert_eq!(input.imports.len(), 1);
    assert_eq!(input.imports[0].module, "std::io");
}

#[test]
fn symbol_summary_input_construction() {
    let input = SymbolSummaryInput {
        symbol_name: "process_payment".into(),
        symbol_kind: "function".into(),
        body: "pub fn process_payment() -> Result<()> { Ok(()) }".into(),
        signature: Some("pub fn process_payment() -> Result<()>".into()),
        doc_comment: Some("Processes a payment.".into()),
        file_path: "src/finance/payments.rs".into(),
        file_summary: "Payment processing and release logic.".into(),
    };
    assert_eq!(input.symbol_name, "process_payment");
    assert_eq!(input.file_summary, "Payment processing and release logic.");
    assert!(input.signature.is_some());
    assert!(input.doc_comment.is_some());
}

#[test]
fn symbol_input_without_optional_fields() {
    let input = SymbolSummaryInput {
        symbol_name: "MAX_RETRIES".into(),
        symbol_kind: "const".into(),
        body: "const MAX_RETRIES: u32 = 3;".into(),
        signature: None,
        doc_comment: None,
        file_path: "src/config.rs".into(),
        file_summary: "Configuration constants.".into(),
    };
    assert!(input.signature.is_none());
    assert!(input.doc_comment.is_none());
}

#[test]
fn build_summarizer_non_summarizer_provider_errors() {
    // OpenAI is an embedder, not a summarizer — the registry rejects it.
    let config = SummarizerConfig {
        provider: "openai".into(),
        model: "gpt-4".into(),
        api_key: "key".into(),
    };
    assert!(build_summarizer(&config).is_err());
}

#[test]
fn build_summarizer_anthropic_without_key_errors() {
    let config = SummarizerConfig {
        provider: "anthropic".into(),
        model: "haiku-4-5-20251001".into(),
        api_key: String::new(),
    };
    match build_summarizer(&config) {
        Ok(_) => panic!("should fail without API key"),
        Err(e) => assert!(e.message().contains("ANTHROPIC_API_KEY")),
    }
}

#[test]
fn build_summarizer_anthropic_with_key_succeeds() {
    let config = SummarizerConfig {
        provider: "anthropic".into(),
        model: "haiku-4-5-20251001".into(),
        api_key: "test-key".into(),
    };
    let s = build_summarizer(&config).unwrap();
    assert_eq!(s.model_name(), "haiku-4-5-20251001");
}

fn sample_file_input() -> FileSummaryInput {
    FileSummaryInput {
        file_path: "src/finance/commission/release.rs".into(),
        content: "pub fn release_payment(payee: &Payee) -> Result<()> { ... }".into(),
        imports: vec![
            Import {
                module: "crate::models::Payee".into(),
                names: vec!["Payee".into()],
            },
            Import {
                module: "anyhow".into(),
                names: vec!["Result".into()],
            },
        ],
        language: "rust".into(),
    }
}

fn sample_symbol_input() -> SymbolSummaryInput {
    SymbolSummaryInput {
        symbol_name: "release_payment".into(),
        symbol_kind: "function".into(),
        body: "pub fn release_payment(payee: &Payee, amount: f64) -> Result<()> { ... }".into(),
        signature: Some(
            "pub fn release_payment(payee: &Payee, amount: f64) -> Result<()>".into(),
        ),
        doc_comment: Some("Releases commission payment to the specified payee.".into()),
        file_path: "src/finance/commission/release.rs".into(),
        file_summary: "Commission payment release service with individual and batch support."
            .into(),
    }
}

#[test]
fn system_prompt_is_non_empty() {
    assert!(!SYSTEM_PROMPT.is_empty());
    assert!(SYSTEM_PROMPT.contains("semantic search"));
}

#[test]
fn file_message_includes_path_and_language() {
    let msg = file_user_message(&sample_file_input());
    assert!(msg.contains("src/finance/commission/release.rs"));
    assert!(msg.contains("rust"));
}

#[test]
fn file_message_includes_imports() {
    let msg = file_user_message(&sample_file_input());
    assert!(msg.contains("crate::models::Payee"));
    assert!(msg.contains("Payee"));
    assert!(msg.contains("anyhow"));
}

#[test]
fn file_message_includes_content() {
    let msg = file_user_message(&sample_file_input());
    assert!(msg.contains("release_payment"));
}

#[test]
fn file_message_omits_imports_section_when_empty() {
    let input = FileSummaryInput {
        imports: vec![],
        ..sample_file_input()
    };
    let msg = file_user_message(&input);
    assert!(!msg.contains("Imports:"));
}

#[test]
fn symbol_message_includes_file_summary_context() {
    let msg = symbol_user_message(&sample_symbol_input());
    assert!(msg.contains("Commission payment release service"));
}

#[test]
fn symbol_message_includes_name_and_kind() {
    let msg = symbol_user_message(&sample_symbol_input());
    assert!(msg.contains("release_payment"));
    assert!(msg.contains("function"));
}

#[test]
fn symbol_message_includes_signature() {
    let msg = symbol_user_message(&sample_symbol_input());
    assert!(msg.contains("pub fn release_payment(payee: &Payee, amount: f64)"));
}

#[test]
fn symbol_message_includes_doc_comment() {
    let msg = symbol_user_message(&sample_symbol_input());
    assert!(msg.contains("Releases commission payment"));
}

#[test]
fn symbol_message_omits_signature_when_none() {
    let input = SymbolSummaryInput {
        signature: None,
        ..sample_symbol_input()
    };
    let msg = symbol_user_message(&input);
    assert!(!msg.contains("Signature:"));
}

#[test]
fn symbol_message_omits_doc_comment_when_none() {
    let input = SymbolSummaryInput {
        doc_comment: None,
        ..sample_symbol_input()
    };
    let msg = symbol_user_message(&input);
    assert!(!msg.contains("Doc comment:"));
}

#[test]
fn format_import_with_names() {
    let import = Import {
        module: "std::collections".into(),
        names: vec!["HashMap".into(), "BTreeMap".into()],
    };
    assert_eq!(
        format_import(&import),
        "- std::collections: HashMap, BTreeMap"
    );
}

#[test]
fn format_import_without_names() {
    let import = Import {
        module: "fmt".into(),
        names: vec![],
    };
    assert_eq!(format_import(&import), "- fmt");
}

fn small_file() -> FileSummaryInput {
    FileSummaryInput {
        file_path: "src/small.rs".into(),
        content: "fn hello() {}".into(), // 14 chars → ~3 tokens
        imports: vec![],
        language: "rust".into(),
    }
}

fn big_file(size: usize) -> FileSummaryInput {
    FileSummaryInput {
        file_path: "src/giant.rs".into(),
        content: "x".repeat(size),
        imports: vec![Import {
            module: "std".into(),
            names: vec![],
        }],
        language: "rust".into(),
    }
}

fn sample_symbols() -> Vec<SymbolChunk> {
    vec![
        SymbolChunk {
            name: "process".into(),
            kind: "function".into(),
            body: "fn process() {}".into(),
            signature: Some("fn process()".into()),
            doc_comment: None,
            start_line: 1,
            end_line: 1,
            references: vec![],
        },
        SymbolChunk {
            name: "validate".into(),
            kind: "function".into(),
            body: "fn validate() {}".into(),
            signature: Some("fn validate()".into()),
            doc_comment: None,
            start_line: 3,
            end_line: 3,
            references: vec![],
        },
    ]
}

#[test]
fn tokens_are_counted_by_characters() {
    assert_eq!(estimate_tokens("éééé"), 1);
    assert_eq!(estimate_tokens("日本語日本語日本"), 2);
    assert_eq!(estimate_tokens("ééé"), 0);
}

#[test]
fn estimate_tokens_chars_div_4() {
    assert_eq!(estimate_tokens(""), 0);
    assert_eq!(estimate_tokens("abcd"), 1);
    assert_eq!(estimate_tokens("a".repeat(200_000).as_str()), 50_000);
}

#[test]
fn small_file_uses_normal_flow() {
    let s = MockSummarizer::new();
    let result = summarize_all(&s, &small_file(), sample_symbols(), 50_000);

    // Normal flow: file summary from file content, symbols get file summary as context
    assert!(result.file_summary.contains("src/small.rs"));
    assert_eq!(result.symbol_summaries.len(), 2);
    assert_eq!(result.symbol_summaries[0].name, "process");
    // Symbol summary should reference the file summary (normal flow threads it)
    assert!(
        result.symbol_summaries[0]
            .summary
            .contains("File summary of")
    );
}

#[test]
fn big_file_uses_rollup_flow() {
    let s = MockSummarizer::new();
    // 200K chars → 50K tokens, threshold at 10K → triggers rollup
    let result = summarize_all(&s, &big_file(200_000), sample_symbols(), 10_000);

    // Roll-up: file summary is derived from rollup prompt (contains symbol summaries)
    assert!(result.file_summary.contains("src/giant.rs"));
    assert_eq!(result.symbol_summaries.len(), 2);
    // In rollup flow, symbols get placeholder context instead of real file summary
    assert!(
        result.symbol_summaries[0]
            .summary
            .contains("rust file with 1 imports")
    );
}

#[test]
fn exact_threshold_uses_normal_flow() {
    let s = MockSummarizer::new();
    // 40K chars → 10K tokens, threshold at 10K → exactly at threshold → normal
    let result = summarize_all(&s, &big_file(40_000), sample_symbols(), 10_000);
    // Should be normal flow (<=, not <)
    assert!(result.file_summary.contains("src/giant.rs"));
}

#[test]
fn empty_symbols_returns_file_summary_only() {
    let s = MockSummarizer::new();
    let result = summarize_all(&s, &small_file(), vec![], 50_000);
    assert!(!result.file_summary.is_empty());
    assert!(result.symbol_summaries.is_empty());
}

#[test]
fn rollup_prompt_includes_symbol_summaries() {
    let msg = prompts::rollup_user_message(
        "src/big.rs",
        "rust",
        &[
            ("process", "Processes items."),
            ("validate", "Validates input."),
        ],
    );
    assert!(msg.contains("src/big.rs"));
    assert!(msg.contains("process: Processes items."));
    assert!(msg.contains("validate: Validates input."));
    assert!(msg.contains("too large"));
}

#[test]
fn the_refusal_lists_who_summarizes() {
    let config = SummarizerConfig {
        provider: "openai".into(),
        model: "gpt-4".into(),
        api_key: "key".into(),
    };
    let e = build_summarizer(&config).unwrap_err();
    assert!(matches!(e, BuildError::NotASummarizer { .. }));
    assert_eq!(
        e.message(),
        "provider 'openai' is not a valid summarizer; available summarizers: anthropic"
    );
}

#[test]
fn the_file_comes_last_in_a_roll_up() {
    let p = SummaryProgress::new();
    let file = big_file(200_000);
    assert!(matches!(p.next_action(&file, &sample_symbols(), 10_000), SummaryAction::Symbol(_)));
    assert!(matches!(
        p.next_action(&file, &sample_symbols(), DEFAULT_TOKEN_THRESHOLD),
        SummaryAction::File(_)
    ));
}
