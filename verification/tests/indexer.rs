//! Indexing: what is embedded, the call graph, and the course of a run.
use std::hash::{Hash, Hasher};

use wdpkr_core::indexer::docstring::{file_toc_text, symbol_embed_text, MAX_TOC_CHARS};
use wdpkr_core::indexer::git::{derive_namespace, namespace_for, normalize_remote, parse_diff};
use wdpkr_core::indexer::pipeline::{
    document_id, item_texts, process_item, summary_input, summary_symbols, texts_to_embed, EmbedMode,
    PipelineResult,
};
use wdpkr_core::indexer::prose::{
    has_code_structure, prose_doc_summary, prose_doc_text, prose_section_summary, prose_section_text,
    snippet, MAX_PROSE_CHARS, MAX_SUMMARY_CHARS,
};
use wdpkr_core::indexer::run::{IndexReport, IndexRun, EMBED_MODE_META_KEY};
use wdpkr_core::indexer::session::{item_outcome, IndexAction, IndexEvent, IndexSession};
use wdpkr_core::indexer::walk::is_binary_extension;
use wdpkr_core::indexer::{resolve_call_edges, ItemOutcome};
use wdpkr_core::store::{ChunkKind, Namespace, NamespaceMetadata, VectorDocument};
use wdpkr_core::summarize::rollup::{
    FileSummaryResult, SummaryAction, SummaryProgress, DEFAULT_TOKEN_THRESHOLD,
};
use wdpkr_core::tap::{SourceChunk, SourceItem};
use wdpkr_core::testing::mock_store::MockVectorStore;
use wdpkr_core::testing::mock_summarize::MockSummarizer;
use wdpkr_core::testing::mock_tap::MockTap;
use wdpkr_core::testing::sample_document;
use wdpkr_core::textmap::TextMap;

fn extension(path: &str) -> Option<&str> {
    std::path::Path::new(path).extension().and_then(|e| e.to_str())
}

/// A vector that follows from the text.
fn embed(text: &str, dimension: usize) -> Vec<u32> {
    (0..dimension)
        .map(|i| {
            let mut hasher = std::hash::DefaultHasher::new();
            text.hash(&mut hasher);
            i.hash(&mut hasher);
            let h = hasher.finish();
            (((h % 20000) as f32 / 10000.0) - 1.0).to_bits()
        })
        .collect()
}

fn summarize_all(s: &MockSummarizer, item: &SourceItem) -> FileSummaryResult {
    let input = summary_input(item);
    let symbols = summary_symbols(item);
    let mut progress = SummaryProgress::new();
    loop {
        let action = progress.next_action(&input, &symbols, DEFAULT_TOKEN_THRESHOLD);
        let reply = match &action {
            SummaryAction::File(input) => s.summarize_file(input),
            SummaryAction::Symbol(input) => s.summarize_symbol(input),
            SummaryAction::Done(_) => String::new(),
        };
        if let SummaryAction::Done(result) = action {
            return result;
        }
        progress.record(&action, &reply);
    }
}

fn process(
    item: &SourceItem,
    summarizer: Option<&MockSummarizer>,
    dimension: usize,
    mode: EmbedMode,
) -> Result<PipelineResult, String> {
    let summaries = match mode {
        EmbedMode::Summary => summarizer.map(|s| summarize_all(s, item)),
        EmbedMode::Docstring => None,
    };
    let texts = item_texts(item, mode, &summaries).map_err(|e| e.message())?;
    let vectors = texts_to_embed(item, &texts).iter().map(|t| embed(t, dimension)).collect();
    Ok(process_item(item, &texts, &vectors))
}

/// Runs the taps against a store in memory.
fn index(
    taps: Vec<MockTap>,
    summarizer: Option<MockSummarizer>,
    store: &mut MockVectorStore,
    namespace: &str,
    mode: EmbedMode,
    full: bool,
) -> Result<IndexReport, String> {
    let dimension = 8;
    let run = IndexRun::new(
        taps.iter().map(|t| t.name().to_string()).collect(),
        "mock/mock-embed-v1".to_string(),
        Namespace::from(namespace),
        1,
        mode,
    );
    let (mut session, mut action) = IndexSession::begin(run, full);
    loop {
        let event = match action {
            IndexAction::CheckNamespace { namespace } => IndexEvent::Existence {
                exists: store.namespace_exists(&namespace),
            },
            IndexAction::CreateNamespace { namespace } => {
                store.create_namespace(&namespace, dimension).map_err(|e| e.message())?;
                IndexEvent::Finished
            }
            IndexAction::ReadMetadata { namespace } => IndexEvent::Metadata {
                metadata: store.get_metadata(&namespace).map_err(|e| e.message())?,
            },
            IndexAction::ReadHashes { namespace } => IndexEvent::Hashes {
                stored: store.get_content_hashes(&namespace).ok(),
            },
            IndexAction::Fetch { tap, context } => {
                IndexEvent::Fetched { result: taps[tap].fetch(&context) }
            }
            IndexAction::DeleteFile { namespace, path } => {
                store.delete_by_file(&namespace, &path).map_err(|e| e.message())?;
                IndexEvent::Finished
            }
            IndexAction::Process { namespace, items } => IndexEvent::Items {
                outcomes: items
                    .iter()
                    .map(|item| {
                        let documents =
                            process(item, summarizer.as_ref(), dimension, mode).ok().map(|r| r.documents);
                        let deleted = store.delete_by_file(&namespace, &item.source_path).is_ok();
                        item_outcome(documents, deleted)
                    })
                    .collect(),
                now: 1_700_000_000,
            },
            IndexAction::Upsert { namespace, documents } => IndexEvent::Upserted {
                stats: store.upsert(&namespace, &documents).map_err(|e| e.message())?,
            },
            IndexAction::WriteMetadata { namespace, metadata } => {
                store.set_metadata(&namespace, &metadata).map_err(|e| e.message())?;
                IndexEvent::Finished
            }
            IndexAction::Finish => return Ok(session.progress.report(0)),
            IndexAction::Stop { error } => return Err(error.message()),
        };
        (session, action) = session.step(event);
    }
}

fn code_chunk(name: &str, signature: Option<&str>) -> SourceChunk {
    SourceChunk {
        name: name.into(),
        kind: "function".into(),
        content: String::new(),
        signature: signature.map(Into::into),
        doc_comment: None,
        start_line: None,
        end_line: None,
        references: vec![],
    }
}

#[test]
fn symbol_with_doc_and_signature() {
    let text = symbol_embed_text(
        Some("Fetches a user by id."),
        Some("pub fn get_user(id: Uuid) -> Option<User>"),
        "get_user",
    );
    assert_eq!(
        text,
        "Fetches a user by id.\npub fn get_user(id: Uuid) -> Option<User>"
    );
}

#[test]
fn symbol_without_doc_uses_signature_only() {
    let text = symbol_embed_text(None, Some("pub fn get_user(id: Uuid)"), "get_user");
    assert_eq!(text, "pub fn get_user(id: Uuid)");
}

#[test]
fn symbol_without_doc_or_signature_falls_back_to_name() {
    // The critical no-documentation case: must not be empty, must not panic.
    let text = symbol_embed_text(None, None, "get_user");
    assert_eq!(text, "get_user");
    assert!(!text.is_empty());
}

#[test]
fn symbol_empty_doc_and_signature_treated_as_absent() {
    let text = symbol_embed_text(Some("   "), Some("  "), "thing");
    assert_eq!(text, "thing");
}

#[test]
fn file_toc_with_module_doc_and_signatures() {
    let children = vec![
        code_chunk("sign", Some("pub fn sign(claims: Claims) -> String")),
        code_chunk(
            "verify",
            Some("pub fn verify(token: &str) -> Result<Claims>"),
        ),
    ];
    let text = file_toc_text("src/auth/jwt.rs", Some("JWT helpers."), &children);
    assert_eq!(
        text,
        "src/auth/jwt.rs\nJWT helpers.\npub fn sign(claims: Claims) -> String\npub fn verify(token: &str) -> Result<Claims>"
    );
}

#[test]
fn file_toc_without_module_doc() {
    let children = vec![code_chunk("main", Some("fn main()"))];
    let text = file_toc_text("src/main.rs", None, &children);
    assert_eq!(text, "src/main.rs\nfn main()");
}

#[test]
fn file_toc_no_symbols_no_doc_is_just_path() {
    // A file with no docs and no symbols still produces a usable vector.
    let text = file_toc_text("config.txt", None, &[]);
    assert_eq!(text, "config.txt");
    assert!(!text.is_empty());
}

#[test]
fn file_toc_symbol_without_signature_uses_name() {
    let children = vec![code_chunk("CONSTANT", None)];
    let text = file_toc_text("src/lib.rs", None, &children);
    assert_eq!(text, "src/lib.rs\nCONSTANT");
}

#[test]
fn file_toc_caps_huge_files() {
    // Thousands of symbols must not produce an unbounded embed input.
    let sig = "pub fn some_reasonably_long_function_name(argument: SomeType) -> Result<()>";
    let children: Vec<SourceChunk> = (0..5000).map(|_| code_chunk("f", Some(sig))).collect();
    let text = file_toc_text("src/generated.rs", None, &children);
    assert!(text.len() <= MAX_TOC_CHARS, "len was {}", text.len());
    // The path is always retained even when truncating.
    assert!(text.starts_with("src/generated.rs"));
}

fn section(name: &str, signature: Option<&str>) -> SourceChunk {
    SourceChunk {
        name: name.into(),
        kind: "section".into(),
        content: String::new(),
        signature: signature.map(Into::into),
        doc_comment: None,
        start_line: None,
        end_line: None,
        references: vec![],
    }
}

#[test]
fn code_item_has_structure() {
    let children = vec![section("get_user", Some("pub fn get_user(id: Uuid)"))];
    assert!(has_code_structure(None, &children));
    assert!(has_code_structure(Some("Module docs."), &[]));
}

#[test]
fn prose_item_has_no_structure() {
    // Document sections: named, no signature.
    let children = vec![section("Overview", None), section("Details", None)];
    assert!(!has_code_structure(None, &children));
    assert!(!has_code_structure(None, &[]));
    // Blank module doc / signature don't count.
    assert!(!has_code_structure(Some("   "), &[section("x", Some("  "))]));
}

#[test]
fn prose_doc_text_uses_content() {
    let content = "# Widget Spec\n\nThe widget cools itself via fins.";
    assert_eq!(prose_doc_text(content), content);
}

#[test]
fn prose_section_text_joins_heading_and_body() {
    let text = prose_section_text("Cooling", "Heat vents through the top fins.");
    assert_eq!(text, "Cooling\nHeat vents through the top fins.");
}

#[test]
fn prose_section_text_empty_body_falls_back_to_heading() {
    assert_eq!(prose_section_text("Overview", "   "), "Overview");
}

#[test]
fn prose_doc_summary_is_title_plus_lead_not_whole_doc() {
    let content = "# Widget Spec\nURL: https://x\n\nThe widget cools via fins.\n\n## Cooling\nMore detail here that should NOT appear in the file summary.";
    let s = prose_doc_summary(content);
    assert!(s.contains("Widget Spec"));
    assert!(s.contains("The widget cools via fins."));
    // The deeper section detail must not be dumped into the file summary.
    assert!(!s.contains("should NOT appear"), "got: {s}");
    // URL metadata isn't used as the lead.
    assert!(!s.contains("URL:"), "got: {s}");
}

#[test]
fn prose_doc_summary_is_capped() {
    let content = format!("# Title\n\n{}", "word ".repeat(400));
    assert!(prose_doc_summary(&content).chars().count() <= MAX_SUMMARY_CHARS);
}

#[test]
fn prose_section_summary_is_content_without_heading() {
    // Heading is shown separately in the result header, so it's omitted here.
    let s = prose_section_summary("Cooling", "Heat vents through the top fins.");
    assert_eq!(s, "Heat vents through the top fins.");
}

#[test]
fn prose_section_summary_empty_body_falls_back_to_heading() {
    assert_eq!(prose_section_summary("Overview", "  "), "Overview");
}

#[test]
fn prose_text_is_truncated() {
    let big = "x".repeat(MAX_PROSE_CHARS + 5_000);
    assert_eq!(prose_doc_text(&big).chars().count(), MAX_PROSE_CHARS);
    let sec = prose_section_text("H", &big);
    assert_eq!(sec.chars().count(), MAX_PROSE_CHARS);
}

#[test]
fn derive_namespace_from_ssh_url() {
    let ns = derive_namespace("ssh://git@codeberg.org/phoenixai/wdpkr.git");
    assert!(ns.starts_with("wdpkr-"));
}

#[test]
fn derive_namespace_from_https_url() {
    let ns = derive_namespace("https://github.com/user/repo.git");
    assert!(ns.starts_with("repo-"));
}

#[test]
fn derive_namespace_from_git_at_url() {
    let ns = derive_namespace("git@github.com:user/repo.git");
    assert!(ns.starts_with("repo-"));
}

#[test]
fn derive_namespace_is_deterministic() {
    let a = derive_namespace("https://github.com/user/repo.git");
    let b = derive_namespace("https://github.com/user/repo.git");
    assert_eq!(a, b);
}

#[test]
fn derive_namespace_different_urls_differ() {
    let a = derive_namespace("https://github.com/user/repo-a.git");
    let b = derive_namespace("https://github.com/user/repo-b.git");
    assert_ne!(a, b);
}

#[test]
fn binary_extension_detection() {
    assert!(is_binary_extension(extension("favicon.png")));
    assert!(is_binary_extension(extension("logo.PNG")));
    assert!(is_binary_extension(extension("app.wasm")));
    assert!(is_binary_extension(extension("archive.tar.gz")));
    assert!(!is_binary_extension(extension("main.rs")));
    assert!(!is_binary_extension(extension("README.md")));
    assert!(!is_binary_extension(extension("config.yaml")));
}

#[test]
fn document_id_is_deterministic() {
    let a = document_id("src/main.rs", ChunkKind::File, None, "fn main() {}");
    let b = document_id("src/main.rs", ChunkKind::File, None, "fn main() {}");
    assert_eq!(a, b);
}

#[test]
fn document_id_differs_by_path() {
    let a = document_id("src/a.rs", ChunkKind::File, None, "content");
    let b = document_id("src/b.rs", ChunkKind::File, None, "content");
    assert_ne!(a, b);
}

#[test]
fn document_id_differs_by_kind() {
    let a = document_id("src/a.rs", ChunkKind::File, None, "content");
    let b = document_id("src/a.rs", ChunkKind::Symbol, Some("foo"), "content");
    assert_ne!(a, b);
}

#[test]
fn document_id_differs_by_content() {
    let a = document_id("src/a.rs", ChunkKind::File, None, "version 1");
    let b = document_id("src/a.rs", ChunkKind::File, None, "version 2");
    assert_ne!(a, b);
}

fn sample_source_item() -> SourceItem {
    SourceItem {
        source_path: "src/main.rs".into(),
        content: "pub fn hello() {}\npub fn world() {}".into(),
        content_hash: "abc123".into(),
        language: Some("rust".into()),
        module_doc: None,
        children: vec![
            SourceChunk {
                name: "hello".into(),
                kind: "function".into(),
                content: "pub fn hello() {}".into(),
                signature: Some("pub fn hello()".into()),
                doc_comment: None,
                start_line: Some(1),
                end_line: Some(1),
                references: vec!["println".into()],
            },
            SourceChunk {
                name: "world".into(),
                kind: "function".into(),
                content: "pub fn world() {}".into(),
                signature: Some("pub fn world()".into()),
                doc_comment: None,
                start_line: Some(2),
                end_line: Some(2),
                references: vec![],
            },
        ],
    }
}

#[test]
fn process_item_with_children() {
    let summarizer = MockSummarizer::new();
    let item = sample_source_item();

    let result = process(&item, Some(&summarizer), 8, EmbedMode::Summary)
        .unwrap();

    assert_eq!(result.documents.len(), 3);
    assert_eq!(result.symbol_count, 2);

    let file_doc = result
        .documents
        .iter()
        .find(|d| d.chunk_kind == ChunkKind::File)
        .expect("should have file-level doc");
    assert_eq!(file_doc.file_path, "src/main.rs");
    assert_eq!(file_doc.content_hash.as_deref(), Some("abc123"));
    assert_eq!(file_doc.language.as_deref(), Some("rust"));
    assert!(!file_doc.summary.is_empty());
    assert_eq!(file_doc.vector.len(), 8);

    let sym_docs: Vec<_> = result
        .documents
        .iter()
        .filter(|d| d.chunk_kind == ChunkKind::Symbol)
        .collect();
    assert_eq!(sym_docs.len(), 2);
}

#[test]
fn process_item_no_children() {
    let summarizer = MockSummarizer::new();
    let item = SourceItem {
        source_path: "linear://ENG-123".into(),
        content: "Fix the login bug".into(),
        content_hash: "def456".into(),
        language: None,
        module_doc: None,
        children: vec![],
    };

    let result = process(&item, Some(&summarizer), 8, EmbedMode::Summary)
        .unwrap();

    assert_eq!(result.documents.len(), 1);
    assert_eq!(result.symbol_count, 0);
    assert_eq!(result.documents[0].chunk_kind, ChunkKind::File);
    assert_eq!(result.documents[0].file_path, "linear://ENG-123");
    assert_eq!(result.documents[0].language.as_deref(), Some("unknown"));
}

#[test]
fn process_item_docstring_mode_skips_summarizer() {
    let mut item = sample_source_item();
    item.module_doc = Some("Greeting helpers.".into());
    item.children[0].doc_comment = Some("Says hello.".into());

    // No summarizer at all — docstring mode must not require one.
    let result = process(&item, None, 8, EmbedMode::Docstring)
        .unwrap();

    assert_eq!(result.documents.len(), 3);

    let hello = result
        .documents
        .iter()
        .find(|d| d.symbol_name.as_deref() == Some("hello"))
        .expect("hello symbol");
    assert_eq!(hello.summary, "Says hello.\npub fn hello()");

    // Undocumented symbol falls back to its signature.
    let world = result
        .documents
        .iter()
        .find(|d| d.symbol_name.as_deref() == Some("world"))
        .expect("world symbol");
    assert_eq!(world.summary, "pub fn world()");

    let file_doc = result
        .documents
        .iter()
        .find(|d| d.chunk_kind == ChunkKind::File)
        .unwrap();
    assert!(file_doc.summary.contains("Greeting helpers."));
    assert!(file_doc.summary.contains("pub fn hello()"));
}

#[test]
fn process_item_docstring_mode_no_docs_does_not_error() {
    // The critical case: a file whose symbols have NO docstrings and no
    // module doc must still index successfully.
    let item = sample_source_item(); // all doc_comments are None, module_doc None

    let result = process(&item, None, 8, EmbedMode::Docstring)
        .expect("undocumented code must not error");

    assert_eq!(result.documents.len(), 3);
    for doc in &result.documents {
        assert!(!doc.summary.is_empty(), "embed text must be non-empty");
        assert_eq!(doc.vector.len(), 8);
    }
}

#[test]
fn process_item_docstring_mode_prose_embeds_content() {
    // A notion-like prose item (no language, sections without signatures)
    // must embed its raw prose, not just headings.
    let item = SourceItem {
        source_path: "notion://abc".into(),
        content: "# Widget Spec\n\n## Cooling\nThe widget vents heat through the top fins."
            .into(),
        content_hash: "h".into(),
        language: None,
        module_doc: None,
        children: vec![SourceChunk {
            name: "Cooling".into(),
            kind: "section".into(),
            content: "The widget vents heat through the top fins.".into(),
            signature: None,
            doc_comment: None,
            start_line: None,
            end_line: None,
            references: vec![],
        }],
    };

    let result = process(&item, None, 8, EmbedMode::Docstring)
        .unwrap();

    let file_doc = result
        .documents
        .iter()
        .find(|d| d.chunk_kind == ChunkKind::File)
        .unwrap();
    // File vector embeds the doc prose (title + body), not a heading list.
    assert!(
        file_doc.summary.contains("Widget Spec"),
        "{}",
        file_doc.summary
    );

    let section = result
        .documents
        .iter()
        .find(|d| d.chunk_kind == ChunkKind::Symbol)
        .unwrap();
    // Section vector embeds the section CONTENT, not just its heading.
    assert!(
        section.summary.contains("vents heat through the top fins"),
        "section embedded only its heading: {}",
        section.summary
    );
}

#[test]
fn process_item_summary_mode_requires_summarizer() {
    let item = sample_source_item();
    let err = process(&item, None, 8, EmbedMode::Summary)
        .unwrap_err();
    assert!(err.contains("summarizer"));
}

#[test]
fn process_item_ids_are_deterministic() {
    let summarizer = MockSummarizer::new();
    let item = sample_source_item();

    let r1 = process(&item, Some(&summarizer), 8, EmbedMode::Summary)
        .unwrap();
    let r2 = process(&item, Some(&summarizer), 8, EmbedMode::Summary)
        .unwrap();

    for (d1, d2) in r1.documents.iter().zip(r2.documents.iter()) {
        assert_eq!(d1.id, d2.id);
    }
}

#[test]
fn process_item_ids_are_unique() {
    let summarizer = MockSummarizer::new();
    let item = sample_source_item();

    let result = process(&item, Some(&summarizer), 8, EmbedMode::Summary)
        .unwrap();

    let ids: Vec<&str> = result.documents.iter().map(|d| d.id.as_str()).collect();
    let unique: std::collections::HashSet<&str> = ids.iter().copied().collect();
    assert_eq!(ids.len(), unique.len(), "duplicate IDs: {ids:?}");
}

#[test]
fn process_item_symbol_metadata_propagates() {
    let summarizer = MockSummarizer::new();
    let item = sample_source_item();

    let result = process(&item, Some(&summarizer), 8, EmbedMode::Summary)
        .unwrap();

    let hello = result
        .documents
        .iter()
        .find(|d| d.symbol_name.as_deref() == Some("hello"))
        .expect("should have hello symbol");
    assert_eq!(hello.symbol_kind.as_deref(), Some("function"));
    assert_eq!(hello.start_line, Some(1));
    assert_eq!(hello.end_line, Some(1));
    assert_eq!(hello.calls.as_deref(), Some(&["println".to_string()][..]));
}

#[test]
fn process_item_content_hash_on_file_doc_only() {
    let summarizer = MockSummarizer::new();
    let item = sample_source_item();

    let result = process(&item, Some(&summarizer), 8, EmbedMode::Summary)
        .unwrap();

    let file_doc = result
        .documents
        .iter()
        .find(|d| d.chunk_kind == ChunkKind::File)
        .unwrap();
    assert!(file_doc.content_hash.is_some());

    for sym in result
        .documents
        .iter()
        .filter(|d| d.chunk_kind == ChunkKind::Symbol)
    {
        assert!(sym.content_hash.is_none());
    }
}

fn sym_doc(id: &str, file: &str, name: &str, calls: Vec<&str>) -> VectorDocument {
    VectorDocument {
        id: id.into(),
        vector: vec![0; 3],
        summary: String::new(),
        file_path: file.into(),
        chunk_kind: ChunkKind::Symbol,
        symbol_name: Some(name.into()),
        symbol_kind: Some("function".into()),
        start_line: Some(1),
        end_line: Some(10),
        language: Some("rust".into()),
        content_hash: None,
        calls: Some(calls.into_iter().map(String::from).collect()),
        called_by: None,
        last_used_at: None,
    }
}

fn sample_items() -> Vec<SourceItem> {
    vec![
        SourceItem {
            source_path: "src/main.rs".into(),
            content: "pub fn hello() {}".into(),
            content_hash: "hash1".into(),
            language: Some("rust".into()),
            module_doc: None,
            children: vec![],
        },
        SourceItem {
            source_path: "src/lib.rs".into(),
            content: "pub fn lib_fn() {}".into(),
            content_hash: "hash2".into(),
            language: Some("rust".into()),
            module_doc: None,
            children: vec![],
        },
    ]
}

#[test]
fn resolve_populates_calls_and_called_by() {
    let mut docs = vec![
        sym_doc("s1", "src/a.rs", "orchestrate", vec!["validate", "process"]),
        sym_doc("s2", "src/b.rs", "validate", vec![]),
        sym_doc("s3", "src/b.rs", "process", vec!["validate"]),
    ];

    resolve_call_edges(&mut docs);

    let orchestrate = &docs[0];
    let calls = orchestrate.calls.as_ref().unwrap();
    assert!(
        calls.contains(&"src/b.rs:validate".to_string()),
        "calls: {calls:?}"
    );
    assert!(
        calls.contains(&"src/b.rs:process".to_string()),
        "calls: {calls:?}"
    );

    let validate = &docs[1];
    let called_by = validate.called_by.as_ref().unwrap();
    assert!(
        called_by.contains(&"src/a.rs:orchestrate".to_string()),
        "called_by: {called_by:?}"
    );
    assert!(
        called_by.contains(&"src/b.rs:process".to_string()),
        "called_by: {called_by:?}"
    );

    let process = &docs[2];
    let called_by = process.called_by.as_ref().unwrap();
    assert!(
        called_by.contains(&"src/a.rs:orchestrate".to_string()),
        "called_by: {called_by:?}"
    );
}

#[test]
fn resolve_drops_unresolved_calls() {
    let mut docs = vec![sym_doc(
        "s1",
        "src/a.rs",
        "main",
        vec!["println", "nonexistent"],
    )];

    resolve_call_edges(&mut docs);

    let calls = docs[0].calls.as_ref().unwrap();
    assert!(calls.is_empty(), "unresolved should be dropped: {calls:?}");
}

#[test]
fn resolve_sets_empty_called_by_for_leaf_symbols() {
    let mut docs = vec![sym_doc("s1", "src/a.rs", "leaf", vec![])];

    resolve_call_edges(&mut docs);

    assert_eq!(docs[0].called_by, Some(vec![]));
}

#[test]
fn resolve_drops_calls_to_ubiquitous_names() {
    // The real-world shape: `new` defined all over the repo, and a caller
    // that merely writes `OpenOptions::new()`. The chunker strips the
    // qualifier, so the bare name cannot pick a winner — emit nothing
    // rather than an edge per definition.
    let mut docs = vec![sym_doc("c", "src/lock.rs", "try_create_lock", vec!["new"])];
    // Note `src/model.rs` and `src/diag.rs` sit in the caller's own
    // directory — proximity must not rescue a name this generic.
    for (n, file) in [
        "src/ann/ivf.rs",
        "src/embed/jina.rs",
        "src/model.rs",
        "src/model.rs",
        "src/diag.rs",
        "src/store/mod.rs",
        "src/backend/gcs.rs",
        "src/cli/backup.rs",
        "src/server/mod.rs",
        "tests/e2e/scale.rs",
    ]
    .iter()
    .enumerate()
    {
        docs.push(sym_doc(&format!("s{n}"), file, "new", vec![]));
    }

    resolve_call_edges(&mut docs);

    let calls = docs[0].calls.as_ref().unwrap();
    assert!(
        calls.is_empty(),
        "a repo-wide generic name should resolve to nothing, got: {calls:?}"
    );
    for doc in &docs[1..] {
        assert_eq!(
            doc.called_by,
            Some(vec![]),
            "no target should claim the caller"
        );
    }
}

#[test]
fn resolve_prefers_same_file_over_repo_wide() {
    let mut docs = vec![
        sym_doc("s1", "src/a.rs", "caller", vec!["helper"]),
        sym_doc("s2", "src/a.rs", "helper", vec![]),
        sym_doc("s3", "src/b.rs", "helper", vec![]),
        sym_doc("s4", "src/c.rs", "helper", vec![]),
    ];

    resolve_call_edges(&mut docs);

    assert_eq!(
        docs[0].calls.as_ref().unwrap(),
        &vec!["src/a.rs:helper".to_string()],
        "the same-file definition should win outright"
    );
    assert_eq!(docs[1].called_by, Some(vec!["src/a.rs:caller".to_string()]));
    assert_eq!(docs[2].called_by, Some(vec![]));
    assert_eq!(docs[3].called_by, Some(vec![]));
}

#[test]
fn resolve_prefers_same_directory_over_distant_matches() {
    let mut docs = vec![
        sym_doc("s1", "src/store/a.rs", "caller", vec!["helper"]),
        sym_doc("s2", "src/store/b.rs", "helper", vec![]),
        sym_doc("s3", "src/cli/c.rs", "helper", vec![]),
        sym_doc("s4", "src/tap/d.rs", "helper", vec![]),
        sym_doc("s5", "src/chunk/e.rs", "helper", vec![]),
    ];

    resolve_call_edges(&mut docs);

    assert_eq!(
        docs[0].calls.as_ref().unwrap(),
        &vec!["src/store/b.rs:helper".to_string()],
        "the same-directory definition should win over distant ones"
    );
}

#[test]
fn resolve_keeps_near_unique_names_across_files() {
    // Below the ambiguity cap, a cross-file edge is still worth emitting.
    let mut docs = vec![
        sym_doc("s1", "src/a.rs", "caller", vec!["rare_helper"]),
        sym_doc("s2", "src/b.rs", "rare_helper", vec![]),
    ];

    resolve_call_edges(&mut docs);

    assert_eq!(
        docs[0].calls.as_ref().unwrap(),
        &vec!["src/b.rs:rare_helper".to_string()]
    );
    assert_eq!(docs[1].called_by, Some(vec!["src/a.rs:caller".to_string()]));
}

#[test]
fn resolve_deduplicates_repeated_call_sites() {
    let mut docs = vec![
        sym_doc(
            "s1",
            "src/a.rs",
            "caller",
            vec!["helper", "helper", "helper"],
        ),
        sym_doc("s2", "src/a.rs", "helper", vec![]),
    ];

    resolve_call_edges(&mut docs);

    assert_eq!(
        docs[0].calls.as_ref().unwrap(),
        &vec!["src/a.rs:helper".to_string()],
        "three call sites are still one edge"
    );
    assert_eq!(
        docs[1].called_by,
        Some(vec!["src/a.rs:caller".to_string()]),
        "and one caller entry, not three"
    );
}

#[test]
fn resolve_skips_file_level_documents() {
    let mut docs = vec![sample_document("src/a.rs", ChunkKind::File)];

    resolve_call_edges(&mut docs);

    assert!(docs[0].calls.is_none());
    assert!(docs[0].called_by.is_none());
}

#[test]
fn tap_namespace_files_uses_base() {
    let run = IndexRun::new(
        vec![],
        "mock/mock-embed-v1".to_string(),
        Namespace::from("my-repo"),
        1,
        EmbedMode::Summary,
    );
    assert_eq!(run.tap_namespace("files").as_str(), "my-repo");
}

#[test]
fn tap_namespace_other_appends_suffix() {
    let run = IndexRun::new(
        vec![],
        "mock/mock-embed-v1".to_string(),
        Namespace::from("my-repo"),
        1,
        EmbedMode::Summary,
    );
    assert_eq!(run.tap_namespace("linear").as_str(), "my-repo--linear");
}

#[test]
fn index_run_processes_items_from_tap() {
    let mut store = MockVectorStore::new();
    let tap = MockTap::new("files", sample_items());
    let report = index(vec![tap], Some(MockSummarizer::new()), &mut store, "test", EmbedMode::Summary, true).unwrap();

    assert_eq!(report.files_processed, 2);
    assert_eq!(report.files_failed, 0);
    assert!(report.vectors_upserted > 0);
}

#[test]
fn index_run_handles_deletions() {
    let mut store = MockVectorStore::new();
    store
        .create_namespace(&Namespace::from("test"), 8)
        .unwrap();

    let doc = VectorDocument {
        id: "to-delete".into(),
        vector: vec![0.1f32.to_bits(); 8],
        summary: "old doc".into(),
        file_path: "deleted.rs".into(),
        chunk_kind: ChunkKind::File,
        symbol_name: None,
        symbol_kind: None,
        start_line: None,
        end_line: None,
        language: Some("rust".into()),
        content_hash: None,
        calls: None,
        called_by: None,
        last_used_at: None,
    };
    store
        .upsert(&Namespace::from("test"), &vec![doc])
        .unwrap();

    let tap = MockTap::with_deletions(
        "files",
        vec![],
        vec!["deleted.rs".into()],
    );
    let report = index(vec![tap], Some(MockSummarizer::new()), &mut store, "test", EmbedMode::Summary, true).unwrap();

    assert_eq!(report.vectors_deleted, 1);
    let docs = store
        .list_documents(&Namespace::from("test"))
        .unwrap();
    assert!(
        docs.iter().all(|d| d.file_path != "deleted.rs"),
        "deleted.rs should be removed"
    );
}

#[test]
fn index_run_multiple_taps_separate_namespaces() {
    let mut store = MockVectorStore::new();
    let files_tap = MockTap::new(
        "files",
        vec![SourceItem {
            source_path: "a.rs".into(),
            content: "fn a() {}".into(),
            content_hash: "h1".into(),
            language: Some("rust".into()),
            module_doc: None,
            children: vec![],
        }],
    );
    let linear_tap = MockTap::new(
        "linear",
        vec![SourceItem {
            source_path: "linear://ENG-1".into(),
            content: "Fix bug".into(),
            content_hash: "h2".into(),
            language: None,
            module_doc: None,
            children: vec![],
        }],
    );
    let report = index(vec![files_tap, linear_tap], Some(MockSummarizer::new()), &mut store, "repo", EmbedMode::Summary, true).unwrap();

    assert!(
        store.namespace_exists(&Namespace::from("repo"))
    );
    assert!(
        store.namespace_exists(&Namespace::from("repo--linear"))
    );
    assert_eq!(report.files_processed, 2);
}

#[test]
fn index_run_persists_cursor_in_metadata() {
    let mut store = MockVectorStore::new();
    let tap = MockTap::with_cursor(
        "files",
        sample_items(),
        "abc123def".into(),
    );
    let report = index(vec![tap], Some(MockSummarizer::new()), &mut store, "test", EmbedMode::Summary, true).unwrap();

    assert_eq!(report.hwm_advanced_to.as_deref(), Some("abc123def"));

    let meta = store.get_metadata(&Namespace::from("test")).unwrap();
    assert_eq!(meta.hwm_sha.as_deref(), Some("abc123def"));
    assert_eq!(meta.embedder.as_deref(), Some("mock/mock-embed-v1"));
}

#[test]
fn index_run_embedder_mismatch_errors_on_incremental() {
    let mut store = MockVectorStore::new();
    store
        .create_namespace(&Namespace::from("test"), 8)
        .unwrap();
    store
        .set_metadata(
            &Namespace::from("test"),
            &NamespaceMetadata {
                hwm_sha: Some("old-sha".into()),
                embedder: Some("voyage/voyage-code-3".into()),
                ..Default::default()
            },
        )
        .unwrap();

    let tap = MockTap::new("files", vec![]);
    let err = index(vec![tap], Some(MockSummarizer::new()), &mut store, "test", EmbedMode::Summary, false).unwrap_err();

    assert!(
        err.contains("embedder mismatch"),
        "expected embedder mismatch error, got: {err}"
    );
}

#[test]
fn index_run_embedder_mismatch_allowed_on_full() {
    let mut store = MockVectorStore::new();
    store
        .create_namespace(&Namespace::from("test"), 8)
        .unwrap();
    store
        .set_metadata(
            &Namespace::from("test"),
            &NamespaceMetadata {
                hwm_sha: Some("old-sha".into()),
                embedder: Some("voyage/voyage-code-3".into()),
                ..Default::default()
            },
        )
        .unwrap();

    let tap = MockTap::new("files", sample_items());
    let report = index(vec![tap], Some(MockSummarizer::new()), &mut store, "test", EmbedMode::Summary, true).unwrap();

    assert_eq!(report.files_processed, 2);
}

fn meta_with_mode(mode: &str) -> NamespaceMetadata {
    let mut extra = TextMap::new();
    extra.insert(EMBED_MODE_META_KEY, mode);
    NamespaceMetadata {
        hwm_sha: Some("old-sha".into()),
        embedder: Some("mock/mock-embed-v1".into()),
        extra,
    }
}

#[test]
fn index_run_mode_mismatch_errors_on_incremental() {
    let mut store = MockVectorStore::new();
    store
        .create_namespace(&Namespace::from("test"), 8)
        .unwrap();
    store
        .set_metadata(&Namespace::from("test"), &meta_with_mode("summary"))
        .unwrap();

    let tap = MockTap::new("files", vec![]);
    let err = index(vec![tap], None, &mut store, "test", EmbedMode::Docstring, false).unwrap_err();
    assert!(
        err.contains("embed mode mismatch"),
        "expected embed mode mismatch, got: {err}"
    );
}

#[test]
fn index_run_mode_mismatch_allowed_on_full() {
    let mut store = MockVectorStore::new();
    store
        .create_namespace(&Namespace::from("test"), 8)
        .unwrap();
    store
        .set_metadata(&Namespace::from("test"), &meta_with_mode("summary"))
        .unwrap();

    let tap = MockTap::new("files", sample_items());
    let report = index(vec![tap], None, &mut store, "test", EmbedMode::Docstring, true).unwrap();
    assert_eq!(report.files_processed, 2);
}

#[test]
fn index_run_legacy_index_without_mode_key_blocks_docstring_incremental() {
    // A namespace indexed before this feature has an embedder but no
    // embed_mode key. Switching to docstring incrementally must error.
    let mut store = MockVectorStore::new();
    store
        .create_namespace(&Namespace::from("test"), 8)
        .unwrap();
    store
        .set_metadata(
            &Namespace::from("test"),
            &NamespaceMetadata {
                hwm_sha: Some("old-sha".into()),
                embedder: Some("mock/mock-embed-v1".into()),
                ..Default::default() // no embed_mode key
            },
        )
        .unwrap();

    let tap = MockTap::new("files", vec![]);
    let err = index(vec![tap], None, &mut store, "test", EmbedMode::Docstring, false).unwrap_err();
    assert!(
        err.contains("embed mode mismatch"),
        "legacy summary index must block docstring incremental, got: {err}"
    );
}

#[test]
fn index_run_fresh_namespace_allows_docstring_incremental() {
    // A brand-new namespace (no embedder recorded) must allow a first
    // docstring index without requiring --full.
    let mut store = MockVectorStore::new();
    let tap = MockTap::new("files", sample_items());
    let report = index(vec![tap], None, &mut store, "fresh", EmbedMode::Docstring, false).unwrap();
    assert_eq!(report.files_processed, 2);
}

#[test]
fn index_run_persists_mode_in_metadata() {
    let mut store = MockVectorStore::new();
    let tap = MockTap::new("files", sample_items());
    index(vec![tap], None, &mut store, "test", EmbedMode::Docstring, true).unwrap();

    let meta = store.get_metadata(&Namespace::from("test")).unwrap();
    assert_eq!(
        meta.extra.get(EMBED_MODE_META_KEY),
        Some("docstring")
    );
}

#[test]
fn index_run_empty_tap_no_errors() {
    let mut store = MockVectorStore::new();
    let tap = MockTap::new("files", vec![]);
    let report = index(vec![tap], Some(MockSummarizer::new()), &mut store, "test", EmbedMode::Summary, true).unwrap();

    assert_eq!(report.files_processed, 0);
    assert_eq!(report.files_failed, 0);
    assert_eq!(report.vectors_upserted, 0);
}

#[test]
fn documents_are_stamped_with_the_time_of_the_run() {
    let mut store = MockVectorStore::new();
    let tap = MockTap::new("files", sample_items());
    index(vec![tap], None, &mut store, "test", EmbedMode::Docstring, true).unwrap();
    let docs = store.list_documents(&Namespace::from("test")).unwrap();
    assert_eq!(docs.len(), 2);
    assert!(docs.iter().all(|d| d.last_used_at == Some(1_700_000_000)));
}

#[test]
fn a_second_run_leaves_out_what_did_not_change() {
    let mut store = MockVectorStore::new();
    let first = index(
        vec![MockTap::new("files", sample_items())],
        None,
        &mut store,
        "test",
        EmbedMode::Docstring,
        false,
    )
    .unwrap();
    assert_eq!(first.files_processed, 2);
    let second = index(
        vec![MockTap::new("files", sample_items())],
        None,
        &mut store,
        "test",
        EmbedMode::Docstring,
        false,
    )
    .unwrap();
    assert_eq!(second.files_processed, 0);
    assert_eq!(store.list_documents(&Namespace::from("test")).unwrap().len(), 2);
}

#[test]
fn failed_items_are_counted() {
    let mut store = MockVectorStore::new();
    let tap = MockTap::new("files", sample_items());
    let report = index(vec![tap], None, &mut store, "test", EmbedMode::Summary, true).unwrap();
    assert_eq!(report.files_processed, 0);
    assert_eq!(report.files_failed, 2);
    assert_eq!(report.vectors_upserted, 0);
}

#[test]
fn an_item_counts_only_once_its_old_documents_are_gone() {
    let docs = vec![sample_document("a.rs", ChunkKind::File)];
    assert!(matches!(item_outcome(Some(docs.clone()), true), ItemOutcome::Processed { .. }));
    assert!(matches!(item_outcome(Some(docs), false), ItemOutcome::Failed));
    assert!(matches!(item_outcome(None, true), ItemOutcome::Failed));
}

#[test]
fn a_run_without_taps_is_done_at_once() {
    let run = IndexRun::new(
        vec![],
        "mock/mock-embed-v1".to_string(),
        Namespace::from("test"),
        0,
        EmbedMode::Summary,
    );
    assert_eq!(run.concurrency, 1);
    let (_, action) = IndexSession::begin(run, true);
    assert!(matches!(action, IndexAction::Finish));
}

#[test]
fn modes_are_read_from_the_configuration() {
    assert_eq!(EmbedMode::from_config("docstring"), EmbedMode::Docstring);
    assert_eq!(EmbedMode::from_config("anything"), EmbedMode::Summary);
    assert_eq!(EmbedMode::Docstring.as_str(), "docstring");
}

#[test]
fn diffs_are_taken_apart() {
    let d = parse_diff("M\tsrc/a.rs\nD\tsrc/b.rs\nA\tsrc/c.rs\nnonsense");
    assert_eq!(d.changed, vec!["src/a.rs", "src/c.rs"]);
    assert_eq!(d.deleted, vec!["src/b.rs"]);
}

#[test]
fn remotes_have_one_normal_form() {
    let normal = "github.com/user/repo";
    assert_eq!(normalize_remote("https://github.com/user/repo.git"), normal);
    assert_eq!(normalize_remote("git@github.com:user/repo.git"), normal);
    assert_eq!(normalize_remote(" ssh://git@github.com/user/repo/ "), normal);
    assert_eq!(
        derive_namespace("https://github.com/user/repo.git"),
        derive_namespace("git@github.com:user/repo.git")
    );
}

#[test]
fn derived_names_keep_letters_of_any_script() {
    assert!(derive_namespace("https://example.org/größe!.git").starts_with("größe-"));
}

#[test]
fn a_configured_namespace_wins() {
    assert_eq!(namespace_for("mine", "https://github.com/user/repo.git").as_str(), "mine");
    assert!(namespace_for("", "https://github.com/user/repo.git").as_str().starts_with("repo-"));
}

#[test]
fn hashes_are_those_of_blake3() {
    let expected = blake3::hash("github.com/user/repo".as_bytes()).to_hex()[..12].to_string();
    assert_eq!(
        derive_namespace("https://github.com/user/repo.git"),
        format!("repo-{expected}")
    );
    let expected = blake3::hash("src/a.rsfilecontent".as_bytes()).to_hex()[..16].to_string();
    assert_eq!(document_id("src/a.rs", ChunkKind::File, None, "content"), expected);
}

#[test]
fn snippets_stay_within_their_length() {
    assert_eq!(snippet("word", 0), "");
    assert_eq!(snippet("word", 1), "…");
    assert_eq!(snippet("", 0), "");
}

#[test]
fn tables_of_contents_stay_within_the_budget_in_bytes() {
    let line = "é".repeat(100);
    let children: Vec<SourceChunk> = (0..1000)
        .map(|_| SourceChunk {
            name: line.clone(),
            kind: "function".into(),
            content: String::new(),
            signature: None,
            doc_comment: None,
            start_line: None,
            end_line: None,
            references: vec![],
        })
        .collect();
    let text = file_toc_text("src/a.rs", None, &children);
    assert!(text.len() <= MAX_TOC_CHARS);
    assert!(text.len() + 201 > MAX_TOC_CHARS);
}

#[test]
fn snippets_are_cut_at_a_word() {
    assert_eq!(snippet("short", 10), "short");
    assert_eq!(snippet("one two three four", 12), "one two…");
}

#[test]
fn namespaces_hold_name_characters_alone() {
    let ns = derive_namespace("https://example.org/user/My_repo-1.x (2)é.git");
    assert_eq!(&ns[..ns.len() - 13], "My_repo-1x2é");
    assert_eq!(ns.as_bytes()[ns.len() - 13], b'-');
    assert!(ns[ns.len() - 12..].chars().all(|c| c.is_ascii_hexdigit()));
}

#[test]
fn the_ways_to_write_one_remote_share_a_namespace() {
    let ns = derive_namespace("git@github.com:user/repo.git");
    assert_eq!(ns, derive_namespace("https://github.com/user/repo"));
    assert_eq!(ns, derive_namespace("ssh://git@github.com/user/repo.git/"));
    assert_eq!(ns, derive_namespace(" http://github.com/user/repo.git\n"));
}

#[test]
fn modes_are_read_back_from_their_names() {
    for mode in [EmbedMode::Summary, EmbedMode::Docstring] {
        assert_eq!(EmbedMode::from_config(mode.as_str()), mode);
    }
}
