//! Search, alone and after indexing.
use std::hash::{Hash, Hasher};

use wdpkr_core::config::tap::DecayConfig;
use wdpkr_core::decision::{DecisionEntry, DecisionRegistry, DecisionStatus};
use wdpkr_core::eval::metrics::Content;
use wdpkr_core::eval::runner::{case_params, compute_by_tag, compute_summary, grade_case, CaseResult};
use wdpkr_core::eval::EvalCase;
use wdpkr_core::globs::compile_globs;
use wdpkr_core::indexer::pipeline::{
    item_texts, process_item, summary_input, summary_symbols, texts_to_embed, EmbedMode, PipelineResult,
};
use wdpkr_core::indexer::run::{IndexReport, IndexRun};
use wdpkr_core::indexer::session::{item_outcome, IndexAction, IndexEvent, IndexSession};
use wdpkr_core::number::Real;
use wdpkr_core::search::{
    base_over_fetch, check_embedder, compile_decisions, compile_filters, governing_for,
    group_results_multi, namespace_options, DecisionMeta, NamespaceHits, Outcome, SearchError,
    SearchParams, SearchReport, SearchRun, SearchStep, SearchTarget, SourcedHit,
};
use wdpkr_core::store::{
    ChunkKind, Namespace, NamespaceMetadata, Score, SearchOptions, VectorDocument,
};
use wdpkr_core::summarize::rollup::{
    FileSummaryResult, SummaryAction, SummaryProgress, DEFAULT_TOKEN_THRESHOLD,
};
use wdpkr_core::tap::files::build_item;
use wdpkr_core::tap::SourceItem;
use wdpkr_core::testing::mock_store::MockVectorStore;
use wdpkr_core::testing::mock_summarize::MockSummarizer;
use wdpkr_core::testing::mock_tap::MockTap;
use wdpkr_core::testing::{sample_result, sample_symbol_result};

/// A vector that follows from the text.
fn embed(text: &str, dimension: usize) -> Vec<u32> {
    (0..dimension)
        .map(|i| {
            let mut hasher = std::hash::DefaultHasher::new();
            text.hash(&mut hasher);
            i.hash(&mut hasher);
            let h = hasher.finish();
            (((h % 20000) as f32 / 10000.0) - 1.0).to_bits()
        })
        .collect()
}

fn summarize_all(s: &MockSummarizer, item: &SourceItem) -> FileSummaryResult {
    let input = summary_input(item);
    let symbols = summary_symbols(item);
    let mut progress = SummaryProgress::new();
    loop {
        let action = progress.next_action(&input, &symbols, DEFAULT_TOKEN_THRESHOLD);
        let reply = match &action {
            SummaryAction::File(input) => s.summarize_file(input),
            SummaryAction::Symbol(input) => s.summarize_symbol(input),
            SummaryAction::Done(_) => String::new(),
        };
        if let SummaryAction::Done(result) = action {
            return result;
        }
        progress.record(&action, &reply);
    }
}

fn process(
    item: &SourceItem,
    summarizer: Option<&MockSummarizer>,
    dimension: usize,
    mode: EmbedMode,
) -> Result<PipelineResult, String> {
    let summaries = match mode {
        EmbedMode::Summary => summarizer.map(|s| summarize_all(s, item)),
        EmbedMode::Docstring => None,
    };
    let texts = item_texts(item, mode, &summaries).map_err(|e| e.message())?;
    let vectors = texts_to_embed(item, &texts).iter().map(|t| embed(t, dimension)).collect();
    Ok(process_item(item, &texts, &vectors))
}

/// Runs the taps against a store in memory.
fn index(
    taps: Vec<MockTap>,
    summarizer: Option<MockSummarizer>,
    store: &mut MockVectorStore,
    namespace: &str,
    mode: EmbedMode,
    full: bool,
) -> Result<IndexReport, String> {
    let dimension = 8;
    let run = IndexRun::new(
        taps.iter().map(|t| t.name().to_string()).collect(),
        "mock/mock-embed-v1".to_string(),
        Namespace::from(namespace),
        1,
        mode,
    );
    let (mut session, mut action) = IndexSession::begin(run, full);
    loop {
        let event = match action {
            IndexAction::CheckNamespace { namespace } => IndexEvent::Existence {
                exists: store.namespace_exists(&namespace),
            },
            IndexAction::CreateNamespace { namespace } => {
                store.create_namespace(&namespace, dimension).map_err(|e| e.message())?;
                IndexEvent::Finished
            }
            IndexAction::ReadMetadata { namespace } => IndexEvent::Metadata {
                metadata: store.get_metadata(&namespace).map_err(|e| e.message())?,
            },
            IndexAction::ReadHashes { namespace } => IndexEvent::Hashes {
                stored: store.get_content_hashes(&namespace).ok(),
            },
            IndexAction::Fetch { tap, context } => {
                IndexEvent::Fetched { result: taps[tap].fetch(&context) }
            }
            IndexAction::DeleteFile { namespace, path } => {
                store.delete_by_file(&namespace, &path).map_err(|e| e.message())?;
                IndexEvent::Finished
            }
            IndexAction::Process { namespace, items } => IndexEvent::Items {
                outcomes: items
                    .iter()
                    .map(|item| {
                        let documents =
                            process(item, summarizer.as_ref(), dimension, mode).ok().map(|r| r.documents);
                        let deleted = store.delete_by_file(&namespace, &item.source_path).is_ok();
                        item_outcome(documents, deleted)
                    })
                    .collect(),
                now: 1_700_000_000,
            },
            IndexAction::Upsert { namespace, documents } => IndexEvent::Upserted {
                stats: store.upsert(&namespace, &documents).map_err(|e| e.message())?,
            },
            IndexAction::WriteMetadata { namespace, metadata } => {
                store.set_metadata(&namespace, &metadata).map_err(|e| e.message())?;
                IndexEvent::Finished
            }
            IndexAction::Finish => return Ok(session.progress.report(0)),
            IndexAction::Stop { error } => return Err(error.message()),
        };
        (session, action) = session.step(event);
    }
}

/// An embedder with fixed vectors for some texts.
struct MockEmbedder {
    dimension: usize,
    overrides: Vec<(String, Vec<f32>)>,
}

impl MockEmbedder {
    fn new(dimension: usize) -> MockEmbedder {
        MockEmbedder { dimension, overrides: vec![] }
    }

    fn set_override(&mut self, text: &str, vector: Vec<f32>) {
        self.overrides.push((text.to_string(), vector));
    }

    fn embed(&self, text: &str) -> Vec<f32> {
        match self.overrides.iter().find(|o| o.0 == text) {
            Some(o) => o.1.clone(),
            None => floats(&embed(text, self.dimension)),
        }
    }
}

fn bits(v: Vec<f32>) -> Vec<u32> {
    v.iter().map(|x| x.to_bits()).collect()
}

fn floats(v: &[u32]) -> Vec<f32> {
    v.iter().map(|b| f32::from_bits(*b)).collect()
}

fn score(x: f32) -> Score {
    Score { bits: x.to_bits() }
}

fn value(s: Score) -> f32 {
    f32::from_bits(s.bits)
}

fn double(x: f64) -> Real {
    Real { bits: x.to_bits() }
}

fn cosine(a: &[f32], b: &[f32]) -> f32 {
    let dot: f32 = a.iter().zip(b).map(|(x, y)| x * y).sum();
    let mag_a: f32 = a.iter().map(|x| x * x).sum::<f32>().sqrt();
    let mag_b: f32 = b.iter().map(|x| x * x).sum::<f32>().sqrt();
    if mag_a == 0.0 || mag_b == 0.0 {
        0.0
    } else {
        dot / (mag_a * mag_b)
    }
}

fn aged(x: f32, last_used_at: Option<i64>, now: i64, decay: &DecayConfig) -> f32 {
    match decay.age(last_used_at, now) {
        Some(age) => {
            let days = age as f64 / 86_400.0;
            let m = 0.5f64.powf(days / f64::from_bits(decay.half_life_days.bits));
            x * m.max(f64::from_bits(decay.floor.bits)) as f32
        }
        None => x,
    }
}

fn ask(
    target: &SearchTarget,
    now: i64,
    query: &[f32],
    store: &MockVectorStore,
    options: &SearchOptions,
) -> Outcome {
    if !store.namespace_exists(&target.namespace) {
        return Outcome::Missing;
    }
    let meta = store.get_metadata(&target.namespace).unwrap();
    if let Err(e) = check_embedder(&meta.embedder, "mock/mock-embed-v1") {
        return Outcome::Failed(e);
    }
    let scores = store
        .list_documents(&target.namespace)
        .unwrap()
        .iter()
        .map(|d| score(cosine(query, &floats(&d.vector))))
        .collect();
    let mut results = store.search(&target.namespace, &scores, options).unwrap();
    for r in &mut results {
        r.score = score(aged(value(r.score), r.last_used_at, now, &target.decay));
    }
    Outcome::Found(NamespaceHits { indexed_at: meta.hwm_sha, results })
}

/// Runs a search against a store in memory.
fn run(
    search: &SearchRun,
    embedder: &MockEmbedder,
    store: &MockVectorStore,
    params: &SearchParams,
) -> Result<SearchReport, String> {
    let filter = compile_filters(&params.filters).map_err(|e| e.message())?;
    let query = embedder.embed(&params.query);
    let mut over_fetch = base_over_fetch(params);
    loop {
        let options = namespace_options(params, over_fetch);
        let outcomes = search
            .namespaces
            .iter()
            .map(|t| ask(t, search.now, &query, store, &options))
            .collect();
        let round = search.assemble_round(&outcomes, over_fetch).map_err(|e| e.message())?;
        match search.advance(params, &filter, round, over_fetch) {
            SearchStep::Report(report) => return Ok(report),
            SearchStep::Widen(wider) => {
                assert!(wider > over_fetch);
                over_fetch = wider;
            }
            SearchStep::Fail(e) => return Err(e.message()),
        }
    }
}

/// Set up a mock store with a realistic codebase: three files, each
/// with two symbols. Vectors are 3D for easy reasoning about similarity.
fn seeded_store() -> MockVectorStore {
    let mut store = MockVectorStore::new();
    store
        .create_namespace(&Namespace::from("test"), 3)
        .unwrap();

    let docs = vec![
        // Commission module — close to [1,0,0]
        VectorDocument {
            id: "f-commission".into(),
            vector: bits(vec![1.0, 0.0, 0.0]),
            summary: "Commission payment release service".into(),
            file_path: "src/finance/commission.rs".into(),
            chunk_kind: ChunkKind::File,
            symbol_name: None,
            symbol_kind: None,
            start_line: None,
            end_line: None,
            language: Some("rust".into()),
            content_hash: None,
            calls: None,
            called_by: None,
            last_used_at: None,
        },
        VectorDocument {
            id: "s-release".into(),
            vector: bits(vec![0.9, 0.1, 0.0]),
            summary: "Releases commission for a payee".into(),
            file_path: "src/finance/commission.rs".into(),
            chunk_kind: ChunkKind::Symbol,
            symbol_name: Some("release_payment".into()),
            symbol_kind: Some("function".into()),
            start_line: Some(42),
            end_line: Some(78),
            language: Some("rust".into()),
            content_hash: None,
            calls: None,
            called_by: None,
            last_used_at: None,
        },
        VectorDocument {
            id: "s-correct".into(),
            vector: bits(vec![0.8, 0.2, 0.0]),
            summary: "Corrects commission amount before release".into(),
            file_path: "src/finance/commission.rs".into(),
            chunk_kind: ChunkKind::Symbol,
            symbol_name: Some("correct_amount".into()),
            symbol_kind: Some("function".into()),
            start_line: Some(80),
            end_line: Some(95),
            language: Some("rust".into()),
            content_hash: None,
            calls: None,
            called_by: None,
            last_used_at: None,
        },
        // Auth module — close to [0,1,0]
        VectorDocument {
            id: "f-auth".into(),
            vector: bits(vec![0.0, 1.0, 0.0]),
            summary: "Authentication and session management".into(),
            file_path: "src/auth/login.rs".into(),
            chunk_kind: ChunkKind::File,
            symbol_name: None,
            symbol_kind: None,
            start_line: None,
            end_line: None,
            language: Some("rust".into()),
            content_hash: None,
            calls: None,
            called_by: None,
            last_used_at: None,
        },
        VectorDocument {
            id: "s-authenticate".into(),
            vector: bits(vec![0.1, 0.9, 0.0]),
            summary: "Authenticates a user".into(),
            file_path: "src/auth/login.rs".into(),
            chunk_kind: ChunkKind::Symbol,
            symbol_name: Some("authenticate".into()),
            symbol_kind: Some("function".into()),
            start_line: Some(10),
            end_line: Some(30),
            language: Some("rust".into()),
            content_hash: None,
            calls: None,
            called_by: None,
            last_used_at: None,
        },
        // API module — close to [0,0,1]
        VectorDocument {
            id: "f-api".into(),
            vector: bits(vec![0.0, 0.0, 1.0]),
            summary: "HTTP request handler".into(),
            file_path: "src/api/handler.rs".into(),
            chunk_kind: ChunkKind::File,
            symbol_name: None,
            symbol_kind: None,
            start_line: None,
            end_line: None,
            language: Some("rust".into()),
            content_hash: None,
            calls: None,
            called_by: None,
            last_used_at: None,
        },
        VectorDocument {
            id: "s-handle".into(),
            vector: bits(vec![0.1, 0.0, 0.9]),
            summary: "Handles incoming HTTP request".into(),
            file_path: "src/api/handler.rs".into(),
            chunk_kind: ChunkKind::Symbol,
            symbol_name: Some("handle_request".into()),
            symbol_kind: Some("function".into()),
            start_line: Some(5),
            end_line: Some(20),
            language: Some("rust".into()),
            content_hash: None,
            calls: None,
            called_by: None,
            last_used_at: None,
        },
    ];
    store.upsert(&Namespace::from("test"), &docs).unwrap();
    store
}

fn query_embedder() -> MockEmbedder {
    let mut e = MockEmbedder::new(3);
    // "commission query" embeds close to the commission file
    e.set_override("release commission payments", vec![0.95, 0.05, 0.0]);
    // "auth query" embeds close to the auth file
    e.set_override("user authentication", vec![0.05, 0.95, 0.0]);
    e
}

#[test]
fn search_decay_reranks_stale_below_fresh() {
    // Two docs with identical vectors; decay must sink the stale one.
    let mut store = MockVectorStore::new();
    let ns = Namespace::from("test--notion");
    store.create_namespace(&ns, 3).unwrap();
    let now = 1_000 * 86_400;
    let mk = |id: &str, path: &str, ts: i64| VectorDocument {
        id: id.into(),
        vector: bits(vec![1.0, 0.0, 0.0]),
        summary: format!("doc {id}"),
        file_path: path.into(),
        chunk_kind: ChunkKind::File,
        symbol_name: None,
        symbol_kind: None,
        start_line: None,
        end_line: None,
        language: None,
        content_hash: None,
        calls: None,
        called_by: None,
        last_used_at: Some(ts),
    };
    store.upsert(&ns, &vec![
                mk("fresh", "notion://fresh", now),
                mk("stale", "notion://stale", now - 3_650 * 86_400),
            ])
        .unwrap();

    let mut embedder = MockEmbedder::new(3);
    embedder.set_override("q", vec![1.0, 0.0, 0.0]);

    let decay = DecayConfig {
        enabled: true,
        half_life_days: double(90.0),
        floor: double(0.4),
    };
    let search = SearchRun::new_multi_with_decay(
        vec![(ns, Some("notion".into()), decay)],
        now,
    );
    let report = run(&search, &embedder, &store, &SearchParams {
            query: "q".into(),
            top_k: 5,
            symbols_per_file: 3,
            no_symbols: true,
            scope: vec![],
            filters: vec![],
        })
        .unwrap();

    assert_eq!(report.results.len(), 2);
    assert_eq!(report.results[0].path, "notion://fresh");
    assert_eq!(report.results[1].path, "notion://stale");
    assert!(
        value(report.results[0].score) > value(report.results[1].score),
        "fresh should outrank stale"
    );
}

#[test]
fn search_returns_ranked_results() {
    let store = seeded_store();
    let embedder = query_embedder();
    let search = SearchRun::new(Namespace::from("test"));

    let report = run(&search, &embedder, &store, &SearchParams {
            query: "release commission payments".into(),
            top_k: 5,
            symbols_per_file: 3,
            no_symbols: false,
            scope: vec![],
            filters: vec![],
        })
        .unwrap();

    assert_eq!(report.query, "release commission payments");
    assert_eq!(report.namespace, "test");
    assert!(!report.results.is_empty());
    // Commission file should rank first (closest vector)
    assert_eq!(report.results[0].path, "src/finance/commission.rs");
}

#[test]
fn symbols_nested_under_files() {
    let store = seeded_store();
    let embedder = query_embedder();
    let search = SearchRun::new(Namespace::from("test"));

    let report = run(&search, &embedder, &store, &SearchParams {
            query: "release commission payments".into(),
            top_k: 5,
            symbols_per_file: 3,
            no_symbols: false,
            scope: vec![],
            filters: vec![],
        })
        .unwrap();

    let commission = &report.results[0];
    assert!(!commission.symbols.is_empty());
    // release_payment should rank above correct_amount (closer vector)
    assert_eq!(commission.symbols[0].name, "release_payment");
}

#[test]
fn no_symbols_flag_omits_symbols() {
    let store = seeded_store();
    let embedder = query_embedder();
    let search = SearchRun::new(Namespace::from("test"));

    let report = run(&search, &embedder, &store, &SearchParams {
            query: "release commission payments".into(),
            top_k: 5,
            symbols_per_file: 3,
            no_symbols: true,
            scope: vec![],
            filters: vec![],
        })
        .unwrap();

    for file in &report.results {
        assert!(file.symbols.is_empty());
    }
}

#[test]
fn top_k_limits_file_count() {
    let store = seeded_store();
    let embedder = query_embedder();
    let search = SearchRun::new(Namespace::from("test"));

    let report = run(&search, &embedder, &store, &SearchParams {
            query: "release commission payments".into(),
            top_k: 1,
            symbols_per_file: 3,
            no_symbols: false,
            scope: vec![],
            filters: vec![],
        })
        .unwrap();

    assert_eq!(report.results.len(), 1);
    assert_eq!(report.results[0].path, "src/finance/commission.rs");
}

#[test]
fn symbols_per_file_limits_symbol_count() {
    let store = seeded_store();
    let embedder = query_embedder();
    let search = SearchRun::new(Namespace::from("test"));

    let report = run(&search, &embedder, &store, &SearchParams {
            query: "release commission payments".into(),
            top_k: 5,
            symbols_per_file: 1,
            no_symbols: false,
            scope: vec![],
            filters: vec![],
        })
        .unwrap();

    let commission = &report.results[0];
    assert_eq!(commission.symbols.len(), 1);
    assert_eq!(commission.symbols[0].name, "release_payment");
}

#[test]
fn scope_filters_by_path_prefix() {
    let store = seeded_store();
    let embedder = query_embedder();
    let search = SearchRun::new(Namespace::from("test"));

    let report = run(&search, &embedder, &store, &SearchParams {
            query: "release commission payments".into(),
            top_k: 5,
            symbols_per_file: 3,
            no_symbols: false,
            scope: vec!["src/finance/".into()],
            filters: vec![],
        })
        .unwrap();

    assert_eq!(report.results.len(), 1);
    assert!(report.results[0].path.starts_with("src/finance/"));
}

#[test]
fn missing_namespace_errors() {
    let mut store = MockVectorStore::new();
    let embedder = MockEmbedder::new(3);
    let search = SearchRun::new(Namespace::from("nonexistent"));

    let err = run(&search, &embedder, &store, &SearchParams {
            query: "anything".into(),
            top_k: 5,
            symbols_per_file: 3,
            no_symbols: false,
            scope: vec![],
            filters: vec![],
        })
        .unwrap_err();
    assert!(err.contains("index not found"));
}

#[test]
fn embedder_mismatch_errors() {
    let mut store = seeded_store();
    // Set metadata with a different embedder identity
    store
        .set_metadata(
            &Namespace::from("test"),
            &NamespaceMetadata {
                embedder: Some("openai/text-embedding-3-large".into()),
                ..Default::default()
            },
        )
        .unwrap();

    let embedder = MockEmbedder::new(3);
    let search = SearchRun::new(Namespace::from("test"));

    let err = run(&search, &embedder, &store, &SearchParams {
            query: "anything".into(),
            top_k: 5,
            symbols_per_file: 3,
            no_symbols: false,
            scope: vec![],
            filters: vec![],
        })
        .unwrap_err();
    assert!(err.contains("embedder mismatch"));
}

#[test]
fn indexed_at_reflects_hwm() {
    let mut store = seeded_store();
    store
        .set_metadata(
            &Namespace::from("test"),
            &NamespaceMetadata {
                hwm_sha: Some("abc123def456".into()),
                ..Default::default()
            },
        )
        .unwrap();

    let embedder = query_embedder();
    let search = SearchRun::new(Namespace::from("test"));

    let report = run(&search, &embedder, &store, &SearchParams {
            query: "release commission payments".into(),
            top_k: 5,
            symbols_per_file: 3,
            no_symbols: false,
            scope: vec![],
            filters: vec![],
        })
        .unwrap();

    assert_eq!(report.indexed_at.as_deref(), Some("abc123def456"));
}

/// Seed a store where every top-ranked file is `.md` and the only `.rs` file
/// ranks below the initial `over_fetch` cutoff. A `--filter "*.rs"` query here
/// used to return nothing at all.
fn store_with_buried_match() -> MockVectorStore {
    let mut store = MockVectorStore::new();
    let ns = Namespace::from("test");
    store.create_namespace(&ns, 3).unwrap();

    let mut docs: Vec<VectorDocument> = (0..8)
        .map(|i| VectorDocument {
            id: format!("f-md-{i}"),
            // Descending similarity to the query vector, all above the .rs file.
            vector: bits(vec![1.0 - (i as f32 * 0.01), 0.0, 0.0]),
            summary: format!("notes {i}"),
            file_path: format!("docs/note{i}.md"),
            chunk_kind: ChunkKind::File,
            symbol_name: None,
            symbol_kind: None,
            start_line: None,
            end_line: None,
            language: Some("markdown".into()),
            content_hash: None,
            calls: None,
            called_by: None,
            last_used_at: None,
        })
        .collect();

    docs.push(VectorDocument {
        id: "f-rs".into(),
        vector: bits(vec![0.5, 0.5, 0.0]),
        summary: "commission release".into(),
        file_path: "src/finance/commission.rs".into(),
        chunk_kind: ChunkKind::File,
        symbol_name: None,
        symbol_kind: None,
        start_line: None,
        end_line: None,
        language: Some("rust".into()),
        content_hash: None,
        calls: None,
        called_by: None,
        last_used_at: None,
    });

    store.upsert(&ns, &docs).unwrap();
    store
}

/// The store ranks by similarity and knows nothing about `--filter`, so a
/// narrow filter can starve the result set. Search must widen the fetch
/// rather than report an empty result that looks like an empty index.
#[test]
fn filter_finds_match_below_initial_over_fetch() {
    let embedder = query_embedder();
    let store = store_with_buried_match();
    let search = SearchRun::new(Namespace::from("test"));

    let report = run(&search, &embedder, &store, &SearchParams {
            query: "release commission payments".into(),
            top_k: 1,
            // over_fetch = top_k * (symbols_per_file + 1) * 3 = 3, so the
            // .rs file sits well below the first round's cutoff.
            symbols_per_file: 0,
            no_symbols: true,
            scope: vec![],
            filters: vec!["*.rs".into()],
        })
        .unwrap();

    assert_eq!(report.results.len(), 1, "buried .rs match must be found");
    assert_eq!(report.results[0].path, "src/finance/commission.rs");
}

/// A filter that matches nothing must still terminate, not widen forever.
#[test]
fn filter_matching_nothing_returns_empty() {
    let embedder = query_embedder();
    let store = store_with_buried_match();
    let search = SearchRun::new(Namespace::from("test"));

    let report = run(&search, &embedder, &store, &SearchParams {
            query: "release commission payments".into(),
            top_k: 1,
            symbols_per_file: 0,
            no_symbols: true,
            scope: vec![],
            filters: vec!["*.zig".into()],
        })
        .unwrap();

    assert!(report.results.is_empty());
}

#[test]
fn filter_glob_prunes_results() {
    let store = seeded_store();
    let embedder = query_embedder();
    let search = SearchRun::new(Namespace::from("test"));

    let report = run(&search, &embedder, &store, &SearchParams {
            query: "release commission payments".into(),
            top_k: 5,
            symbols_per_file: 3,
            no_symbols: false,
            scope: vec![],
            filters: vec!["**/commission.*".into()],
        })
        .unwrap();

    assert_eq!(report.results.len(), 1);
    assert_eq!(report.results[0].path, "src/finance/commission.rs");
}

/// `--filter` is a comparison against paths, so it case-folds: a pattern
/// typed in the wrong case must not silently return nothing.
#[test]
fn filter_glob_is_case_insensitive() {
    let store = seeded_store();
    let embedder = query_embedder();
    let search = SearchRun::new(Namespace::from("test"));

    let report = run(&search, &embedder, &store, &SearchParams {
            query: "release commission payments".into(),
            top_k: 5,
            symbols_per_file: 3,
            no_symbols: false,
            scope: vec![],
            filters: vec!["**/COMMISSION.RS".into()],
        })
        .unwrap();

    assert_eq!(report.results.len(), 1);
    assert_eq!(report.results[0].path, "src/finance/commission.rs");
}

#[test]
fn filter_glob_multiple_patterns_or() {
    let store = seeded_store();
    let embedder = query_embedder();
    let search = SearchRun::new(Namespace::from("test"));

    let report = run(&search, &embedder, &store, &SearchParams {
            query: "release commission payments".into(),
            top_k: 5,
            symbols_per_file: 3,
            no_symbols: false,
            scope: vec![],
            filters: vec!["**/commission.*".into(), "**/login.*".into()],
        })
        .unwrap();

    assert_eq!(report.results.len(), 2);
    let paths: Vec<&str> = report.results.iter().map(|r| r.path.as_str()).collect();
    assert!(paths.contains(&"src/finance/commission.rs"));
    assert!(paths.contains(&"src/auth/login.rs"));
}

#[test]
fn filter_glob_no_match_returns_empty() {
    let store = seeded_store();
    let embedder = query_embedder();
    let search = SearchRun::new(Namespace::from("test"));

    let report = run(&search, &embedder, &store, &SearchParams {
            query: "release commission payments".into(),
            top_k: 5,
            symbols_per_file: 3,
            no_symbols: false,
            scope: vec![],
            filters: vec!["*.go".into()],
        })
        .unwrap();

    assert!(report.results.is_empty());
}

#[test]
fn filter_invalid_glob_returns_error() {
    let store = seeded_store();
    let embedder = query_embedder();
    let search = SearchRun::new(Namespace::from("test"));

    let err = run(&search, &embedder, &store, &SearchParams {
            query: "anything".into(),
            top_k: 5,
            symbols_per_file: 3,
            no_symbols: false,
            scope: vec![],
            filters: vec!["[invalid".into()],
        })
        .unwrap_err();
    assert!(err.contains("--filter"));
}

fn seeded_multi_store() -> MockVectorStore {
    let mut store = seeded_store();
    store
        .create_namespace(&Namespace::from("test--linear"), 3)
        .unwrap();
    let linear_docs = vec![VectorDocument {
        id: "f-linear-eng1".into(),
        vector: bits(vec![0.95, 0.05, 0.0]),
        summary: "Fix commission calculation bug".into(),
        file_path: "linear://ENG-1".into(),
        chunk_kind: ChunkKind::File,
        symbol_name: None,
        symbol_kind: None,
        start_line: None,
        end_line: None,
        language: None,
        content_hash: None,
        calls: None,
        called_by: None,
        last_used_at: None,
    }];
    store
        .upsert(&Namespace::from("test--linear"), &linear_docs)
        .unwrap();
    store
}

fn globset(patterns: &[&str]) -> globset::GlobSet {
    compile_globs(&patterns.iter().map(|p| p.to_string()).collect()).unwrap()
}

fn decision_meta(uri: &str, areas: &[&str], active: bool, overrides: &[&str]) -> DecisionMeta {
    DecisionMeta {
        uri: uri.into(),
        title: format!("decision {uri}"),
        status: if active { "accepted" } else { "superseded" }.into(),
        active,
        areas: globset(areas),
        overrides: overrides.iter().map(|s| s.to_string()).collect(),
    }
}

#[test]
fn governed_by_attaches_to_in_area_code() {
    let store = seeded_store();
    let embedder = query_embedder();
    let d = decision_meta("decision://0001", &["src/finance/**"], true, &[]);
    let search = SearchRun::new(Namespace::from("test"))
        .with_decisions(vec![d]);

    let report = run(&search, &embedder, &store, &SearchParams {
            query: "release commission payments".into(),
            top_k: 5,
            symbols_per_file: 3,
            no_symbols: true,
            scope: vec![],
            filters: vec![],
        })
        .unwrap();

    let commission = report
        .results
        .iter()
        .find(|r| r.path == "src/finance/commission.rs")
        .expect("commission file present");
    let gov = commission
        .governed_by
        .as_ref()
        .expect("governed_by attached");
    assert_eq!(gov.len(), 1);
    assert_eq!(gov[0].path, "decision://0001");

    // A file outside the area gets no governed_by.
    if let Some(auth) = report
        .results
        .iter()
        .find(|r| r.path == "src/auth/login.rs")
    {
        assert!(auth.governed_by.is_none());
    }
}

#[test]
fn scope_override_drops_overridden_decision() {
    let store = seeded_store();
    let embedder = query_embedder();
    // Broad decision 0001 governs src/**; narrow 0002 governs src/finance/**
    // and overrides 0001. Only 0002 should attach to the commission file.
    let broad = decision_meta("decision://0001", &["src/**"], true, &[]);
    let narrow = decision_meta(
        "decision://0002",
        &["src/finance/**"],
        true,
        &["decision://0001"],
    );
    let search = SearchRun::new(Namespace::from("test"))
        .with_decisions(vec![broad, narrow]);

    let report = run(&search, &embedder, &store, &SearchParams {
            query: "release commission payments".into(),
            top_k: 5,
            symbols_per_file: 0,
            no_symbols: true,
            scope: vec![],
            filters: vec![],
        })
        .unwrap();

    let commission = report
        .results
        .iter()
        .find(|r| r.path == "src/finance/commission.rs")
        .unwrap();
    let gov = commission.governed_by.as_ref().unwrap();
    assert_eq!(gov.len(), 1, "override should drop the broad decision");
    assert_eq!(gov[0].path, "decision://0002");
}

#[test]
fn superseded_decision_result_excluded() {
    // A decision doc in the namespace whose registry status is superseded
    // must not appear in active results.
    let mut store = MockVectorStore::new();
    let ns = Namespace::from("test");
    store.create_namespace(&ns, 3).unwrap();
    let mk = |id: &str, path: &str| VectorDocument {
        id: id.into(),
        vector: bits(vec![1.0, 0.0, 0.0]),
        summary: format!("doc {id}"),
        file_path: path.into(),
        chunk_kind: ChunkKind::File,
        symbol_name: None,
        symbol_kind: None,
        start_line: None,
        end_line: None,
        language: None,
        content_hash: None,
        calls: None,
        called_by: None,
        last_used_at: None,
    };
    store.upsert(&ns, &vec![mk("d1", "decision://0001"), mk("d2", "decision://0002")])
        .unwrap();

    let mut embedder = MockEmbedder::new(3);
    embedder.set_override("q", vec![1.0, 0.0, 0.0]);

    let active = decision_meta("decision://0001", &[], true, &[]);
    let superseded = decision_meta("decision://0002", &[], false, &[]);
    let search = SearchRun::new(ns)
        .with_decisions(vec![active, superseded]);

    let report = run(&search, &embedder, &store, &SearchParams {
            query: "q".into(),
            top_k: 5,
            symbols_per_file: 0,
            no_symbols: true,
            scope: vec![],
            filters: vec![],
        })
        .unwrap();

    let paths: Vec<&str> = report.results.iter().map(|r| r.path.as_str()).collect();
    assert!(
        paths.contains(&"decision://0001"),
        "active decision present"
    );
    assert!(
        !paths.contains(&"decision://0002"),
        "superseded decision must be excluded"
    );
}

#[test]
fn multi_namespace_merges_by_score() {
    let store = seeded_multi_store();
    let embedder = query_embedder();
    let search = SearchRun::new_multi(
        vec![
            (Namespace::from("test"), None),
            (Namespace::from("test--linear"), Some("linear".into())),
        ],
    );

    let report = run(&search, &embedder, &store, &SearchParams {
            query: "release commission payments".into(),
            top_k: 5,
            symbols_per_file: 3,
            no_symbols: false,
            scope: vec![],
            filters: vec![],
        })
        .unwrap();

    assert!(report.results.len() >= 2);
    let linear_result = report.results.iter().find(|r| r.path == "linear://ENG-1");
    assert!(linear_result.is_some(), "should include linear results");
    assert_eq!(
        linear_result.unwrap().source.as_deref(),
        Some("linear"),
        "linear results should have source label"
    );

    let files_result = report
        .results
        .iter()
        .find(|r| r.path == "src/finance/commission.rs");
    assert!(files_result.is_some());
    assert!(
        files_result.unwrap().source.is_none(),
        "files results should have no source label"
    );
}

/// Namespaces are searched concurrently, so the report must be reassembled
/// in *configured* order rather than completion order — otherwise output
/// would vary run to run and break callers parsing the JSON.
/// The primary namespace (and its `indexed_at`) is the first *existing*
/// namespace in configured order — not whichever future resolves first.
#[test]
fn primary_namespace_follows_configured_order() {
    let embedder = query_embedder();
    let store = seeded_multi_store();
    let search = SearchRun::new_multi(
        vec![
            // A namespace that was never indexed must be skipped without
            // claiming the primary slot.
            (Namespace::from("test--absent"), Some("absent".into())),
            (Namespace::from("test"), None),
            (Namespace::from("test--linear"), Some("linear".into())),
        ],
    );

    let report = run(&search, &embedder, &store, &SearchParams {
            query: "release commission payments".into(),
            top_k: 5,
            symbols_per_file: 3,
            no_symbols: false,
            scope: vec![],
            filters: vec![],
        })
        .unwrap();

    assert_eq!(report.namespace, "test");
}

#[test]
fn multi_namespace_missing_namespace_skipped() {
    let store = seeded_store();
    let embedder = query_embedder();
    let search = SearchRun::new_multi(
        vec![
            (Namespace::from("test"), None),
            (Namespace::from("test--never-indexed"), Some("never".into())),
        ],
    );

    let report = run(&search, &embedder, &store, &SearchParams {
            query: "release commission payments".into(),
            top_k: 5,
            symbols_per_file: 3,
            no_symbols: false,
            scope: vec![],
            filters: vec![],
        })
        .unwrap();

    assert!(!report.results.is_empty());
    assert!(
        report
            .results
            .iter()
            .all(|r| r.source.as_deref() != Some("never")),
        "never-indexed namespace should be skipped"
    );
}

#[test]
fn multi_namespace_output_is_deterministic() {
    let params = SearchParams {
        query: "release commission payments".into(),
        top_k: 5,
        symbols_per_file: 3,
        no_symbols: false,
        scope: vec![],
        filters: vec![],
    };
    let run_once = || {
        let search = SearchRun::new_multi(vec![
            (Namespace::from("test"), None),
            (Namespace::from("test--linear"), Some("linear".into())),
        ]);
        let report = run(&search, &query_embedder(), &seeded_multi_store(), &params).unwrap();
        format!("{report:?}")
    };
    let first = run_once();
    for _ in 0..5 {
        assert_eq!(run_once(), first, "search output must be stable");
    }
}

const DIM: usize = 3;
const NOW: i64 = 1_000_000;
const HIT: [f32; 3] = [1.0, 0.0, 0.0];

fn code_doc(path: &str) -> VectorDocument {
    VectorDocument {
        id: format!("code-{path}"),
        vector: bits(HIT.to_vec()),
        summary: format!("summary of {path}"),
        file_path: path.into(),
        chunk_kind: ChunkKind::File,
        symbol_name: None,
        symbol_kind: None,
        start_line: None,
        end_line: None,
        language: Some("rust".into()),
        content_hash: None,
        calls: None,
        called_by: None,
        last_used_at: None,
    }
}

fn entry(id: u32, title: &str, areas: &[&str]) -> DecisionEntry {
    DecisionEntry {
        id,
        title: title.into(),
        status: DecisionStatus::Accepted,
        author: "Ada".into(),
        date: NOW,
        updated_at: None,
        context: Some("why it matters".into()),
        decision: Some("what we chose".into()),
        consequences: Some("the trade-offs".into()),
        sources: vec![],
        areas: areas.iter().map(|s| s.to_string()).collect(),
        supersedes: vec![],
        overrides: vec![],
        relates_to: vec![],
        superseded_by: None,
    }
}

fn author(store: &mut MockVectorStore, ns: &Namespace, e: &DecisionEntry) {
    let item = e.to_source_item();
    let mut docs = process(&item, None, DIM, EmbedMode::Docstring).unwrap().documents;
    for d in &mut docs {
        d.vector = bits(HIT.to_vec());
        d.last_used_at = Some(NOW);
    }
    store.delete_by_file(ns, &e.uri()).unwrap();
    store.upsert(ns, &docs).unwrap();
}

fn scenario(decisions: &[DecisionEntry]) -> MockVectorStore {
    let mut store = MockVectorStore::new();
    let code_ns = Namespace::from("test");
    let dec_ns = Namespace::from("test--decision");
    store.create_namespace(&code_ns, DIM).unwrap();
    store.create_namespace(&dec_ns, DIM).unwrap();
    store.upsert(&code_ns, &vec![code_doc("src/finance/commission.rs")]).unwrap();
    for e in decisions {
        author(&mut store, &dec_ns, e);
    }
    store
}

fn recall(store: &MockVectorStore, reg: &DecisionRegistry) -> SearchReport {
    let search = SearchRun::new_multi_with_decay(
        vec![
            (Namespace::from("test"), None, DecayConfig::default()),
            (Namespace::from("test--decision"), Some("decision".into()), DecayConfig::default()),
        ],
        NOW,
    )
    .with_decisions(compile_decisions(reg).unwrap());
    let mut embedder = MockEmbedder::new(DIM);
    embedder.set_override("q", HIT.to_vec());
    let params = SearchParams {
        query: "q".into(),
        top_k: 10,
        symbols_per_file: 0,
        no_symbols: true,
        scope: vec![],
        filters: vec![],
    };
    run(&search, &embedder, store, &params).unwrap()
}

#[test]
fn decision_recall_end_to_end() {
    let d1 = entry(1, "Half-up rounding", &["src/finance/**"]);
    let mut reg = DecisionRegistry::default();
    reg.upsert(d1.clone());
    let report = recall(&scenario(&[d1.clone()]), &reg);

    let commission = report
        .results
        .iter()
        .find(|r| r.path == "src/finance/commission.rs")
        .expect("code file present");
    let gov = commission.governed_by.as_ref().expect("governed_by attached to in-area code");
    assert_eq!(gov[0].path, "decision://0001");
    let decision_hit = report
        .results
        .iter()
        .find(|r| r.path == "decision://0001")
        .expect("decision surfaces as its own hit");
    assert_eq!(decision_hit.source.as_deref(), Some("decision"));

    let d2 = entry(2, "Banker's rounding", &["src/finance/**"]);
    let mut reg2 = DecisionRegistry::default();
    reg2.upsert(d1.clone());
    reg2.upsert(d2.clone());
    reg2.mark_superseded(1, 2);
    let report2 = recall(&scenario(&[d1, d2]), &reg2);
    let paths: Vec<&str> = report2.results.iter().map(|r| r.path.as_str()).collect();
    assert!(!paths.contains(&"decision://0001"), "superseded decision excluded from active recall");
    assert!(paths.contains(&"decision://0002"), "successor is active");
    let commission2 =
        report2.results.iter().find(|r| r.path == "src/finance/commission.rs").unwrap();
    let gov_paths: Vec<&str> =
        commission2.governed_by.as_ref().unwrap().iter().map(|g| g.path.as_str()).collect();
    assert_eq!(gov_paths, vec!["decision://0002"]);
}

const PAYMENTS: &str = r#"use std::io;

/// Releases a commission payment to a payee.
pub fn release_payment(payee_id: u64, amount: f64) -> Result<(), String> {
    if amount <= 0.0 {
        return Err("amount must be positive".into());
    }
    println!("Releasing {amount} to payee {payee_id}");
    Ok(())
}

/// Processes a refund for a previously released payment.
pub fn process_refund(payment_id: u64) -> Result<(), String> {
    println!("Refunding payment {payment_id}");
    Ok(())
}
"#;

const AUTH: &str = r#"
def authenticate(username: str, password: str) -> bool:
    """Authenticate a user against the credential store."""
    return username == "admin" and password == "secret"

def revoke_session(session_id: str) -> None:
    """Revoke an active session."""
    print(f"Revoking session {session_id}")
"#;

const HANDLER: &str = r#"package api

import "net/http"

// HandleRequest processes an incoming HTTP request.
func HandleRequest(w http.ResponseWriter, r *http.Request) {
    w.WriteHeader(http.StatusOK)
}
"#;

fn fixture_items() -> Vec<SourceItem> {
    vec![
        build_item("src/payments.rs", PAYMENTS),
        build_item("src/auth.py", AUTH),
        build_item("src/handler.go", HANDLER),
        build_item("README.md", "# Test Repo\n\nA fixture for integration tests.\n"),
    ]
}

fn indexed(namespace: &str) -> (MockVectorStore, IndexReport) {
    let mut store = MockVectorStore::new();
    let tap = MockTap::with_cursor("files", fixture_items(), "0123abc".into());
    let report = index(
        vec![tap],
        Some(MockSummarizer::new()),
        &mut store,
        namespace,
        EmbedMode::Summary,
        true,
    )
    .unwrap();
    (store, report)
}

fn everything(scope: Vec<String>) -> SearchParams {
    SearchParams {
        query: "anything".into(),
        top_k: 20,
        symbols_per_file: 10,
        no_symbols: false,
        scope,
        filters: vec![],
    }
}

#[test]
fn full_index_populates_store() {
    let (_, report) = indexed("test-e2e");
    assert!(report.files_processed > 0, "should process files");
    assert_eq!(report.files_failed, 0, "no files should fail");
    assert!(report.vectors_upserted > 0, "should upsert vectors");
    assert!(report.hwm_advanced_to.is_some(), "should set HWM");
}

#[test]
fn index_produces_file_and_symbol_documents() {
    let (_, report) = indexed("test-e2e");
    assert!(
        report.vectors_upserted >= 4,
        "expected at least 4 docs (one per file), got {}",
        report.vectors_upserted
    );
}

#[test]
fn hwm_is_stored_after_indexing() {
    let (store, report) = indexed("test-e2e");
    assert!(report.hwm_advanced_to.is_some());
    let sha = report.hwm_advanced_to.unwrap();
    assert!(sha.len() >= 7);
    assert!(sha.chars().all(|c| c.is_ascii_hexdigit()));
    let meta = store.get_metadata(&Namespace::from("test-e2e")).unwrap();
    assert_eq!(meta.hwm_sha, Some(sha));
}

#[test]
fn index_then_search_round_trip() {
    let (store, report) = indexed("test-roundtrip");
    assert!(report.vectors_upserted > 0);
    let search = SearchRun::new(Namespace::from("test-roundtrip"));
    let mut params = everything(vec![]);
    params.query = "payment release".into();
    let result = run(&search, &MockEmbedder::new(8), &store, &params).unwrap();
    assert!(!result.results.is_empty(), "search should return results");
    assert_eq!(result.namespace, "test-roundtrip");
    assert!(result.indexed_at.is_some(), "should include HWM");
    for file_result in &result.results {
        assert!(!file_result.path.is_empty());
        assert!(file_result.summary.is_some());
    }
}

#[test]
fn search_finds_indexed_file_paths() {
    let (store, _) = indexed("test-paths");
    let search = SearchRun::new(Namespace::from("test-paths"));
    let result = run(&search, &MockEmbedder::new(8), &store, &everything(vec![])).unwrap();
    let paths: Vec<&str> = result.results.iter().map(|r| r.path.as_str()).collect();
    assert!(
        paths.iter().any(|p| p.contains("payments.rs")),
        "expected payments.rs in results; got: {paths:?}"
    );
}

#[test]
fn symbols_appear_nested_under_files() {
    let (store, _) = indexed("test-symbols");
    let search = SearchRun::new(Namespace::from("test-symbols"));
    let result = run(&search, &MockEmbedder::new(8), &store, &everything(vec![])).unwrap();
    let payments = result.results.iter().find(|r| r.path.contains("payments.rs")).unwrap();
    let sym_names: Vec<&str> = payments.symbols.iter().map(|s| s.name.as_str()).collect();
    assert!(sym_names.contains(&"release_payment"), "got: {sym_names:?}");
    assert!(sym_names.contains(&"process_refund"), "got: {sym_names:?}");
}

#[test]
fn scope_filter_limits_results_after_index() {
    let (store, _) = indexed("test-scope");
    let search = SearchRun::new(Namespace::from("test-scope"));
    let result =
        run(&search, &MockEmbedder::new(8), &store, &everything(vec!["src/".into()])).unwrap();
    assert!(!result.results.is_empty());
    for file_result in &result.results {
        assert!(
            file_result.path.starts_with("src/"),
            "scoped result has unexpected path: {}",
            file_result.path
        );
    }
}

#[test]
fn incremental_index_only_processes_changed_files() {
    let (mut store, first) = indexed("test-incr");
    let mut items = fixture_items();
    items.push(build_item("src/new_feature.rs", "pub fn new_thing() { println!(\"new\"); }\n"));
    let report = index(
        vec![MockTap::new("files", items)],
        Some(MockSummarizer::new()),
        &mut store,
        "test-incr",
        EmbedMode::Summary,
        false,
    )
    .unwrap();
    assert!(report.files_processed < first.files_processed);
    assert_eq!(report.files_processed, 1, "should process the new file");
}

#[test]
fn incremental_index_removes_stale_symbols() {
    let (mut store, _) = indexed("test-stale");
    let ns = Namespace::from("test-stale");
    let before = store.document_count(&ns, "src/payments.rs");
    assert!(before >= 3, "expected file + 2 symbols, got {before}");
    let shorter = &PAYMENTS[..PAYMENTS.find("\n/// Processes").unwrap()];
    index(
        vec![MockTap::new("files", vec![build_item("src/payments.rs", shorter)])],
        Some(MockSummarizer::new()),
        &mut store,
        "test-stale",
        EmbedMode::Summary,
        false,
    )
    .unwrap();
    let after = store.document_count(&ns, "src/payments.rs");
    assert!(after < before, "expected fewer vectors: before={before}, after={after}");
    assert_eq!(after, 2, "expected file + 1 symbol, got {after}");
}

fn stored(
    id: &str,
    vector: Vec<f32>,
    summary: &str,
    file_path: &str,
    symbol: Option<(&str, u32, u32)>,
) -> VectorDocument {
    VectorDocument {
        id: id.into(),
        vector: bits(vector),
        summary: summary.into(),
        file_path: file_path.into(),
        chunk_kind: if symbol.is_some() { ChunkKind::Symbol } else { ChunkKind::File },
        symbol_name: symbol.map(|s| s.0.into()),
        symbol_kind: symbol.map(|_| "function".into()),
        start_line: symbol.map(|s| s.1),
        end_line: symbol.map(|s| s.2),
        language: Some("rust".into()),
        content_hash: None,
        calls: None,
        called_by: None,
        last_used_at: None,
    }
}

fn seeded_env() -> (MockVectorStore, MockEmbedder) {
    let ns = Namespace::from("integration");
    let mut store = MockVectorStore::new();
    store.create_namespace(&ns, 3).unwrap();
    let metadata = NamespaceMetadata {
        hwm_sha: Some("e2e-test-sha".into()),
        embedder: Some("mock/mock-embed-v1".into()),
        ..NamespaceMetadata::default()
    };
    store.set_metadata(&ns, &metadata).unwrap();
    let payments = "src/finance/payments.rs";
    let accounts = "src/users/accounts.rs";
    let docs = vec![
        stored(
            "f-payments",
            vec![1.0, 0.0, 0.0],
            "Payment processing and release logic",
            payments,
            None,
        ),
        stored(
            "s-release",
            vec![0.95, 0.05, 0.0],
            "Releases payment to a payee",
            payments,
            Some(("release_payment", 10, 45)),
        ),
        stored(
            "s-refund",
            vec![0.85, 0.15, 0.0],
            "Processes a refund",
            payments,
            Some(("process_refund", 50, 80)),
        ),
        stored("f-users", vec![0.0, 1.0, 0.0], "User account management", accounts, None),
        stored(
            "s-create-user",
            vec![0.05, 0.95, 0.0],
            "Creates a new user account",
            accounts,
            Some(("create_user", 5, 25)),
        ),
    ];
    store.upsert(&ns, &docs).unwrap();
    let mut embedder = MockEmbedder::new(3);
    embedder.set_override("payment processing", vec![0.9, 0.1, 0.0]);
    embedder.set_override("something unrelated", vec![0.0, 0.0, 1.0]);
    (store, embedder)
}

fn asked(query: &str, scope: Vec<String>) -> SearchReport {
    let (store, embedder) = seeded_env();
    let params = SearchParams {
        query: query.into(),
        top_k: 5,
        symbols_per_file: 3,
        no_symbols: false,
        scope,
        filters: vec![],
    };
    run(&SearchRun::new(Namespace::from("integration")), &embedder, &store, &params).unwrap()
}

#[test]
fn a_report_holds_what_was_stored() {
    let report = asked("payment processing", vec![]);
    assert_eq!(report.query, "payment processing");
    assert_eq!(report.namespace, "integration");
    assert_eq!(report.indexed_at.as_deref(), Some("e2e-test-sha"));
    let first = &report.results[0];
    assert_eq!(first.path, "src/finance/payments.rs");
    assert_eq!(first.summary.as_deref(), Some("Payment processing and release logic"));
    let names: Vec<&str> = first.symbols.iter().map(|s| s.name.as_str()).collect();
    assert_eq!(names, vec!["release_payment", "process_refund"]);
    assert_eq!(first.symbols[0].kind, "function");
    assert_eq!(first.symbols[0].lines, [10, 45]);
}

#[test]
fn scope_filters_end_to_end() {
    let report = asked("payment processing", vec!["src/finance/".into()]);
    for result in &report.results {
        assert!(
            result.path.starts_with("src/finance/"),
            "unexpected path outside scope: {}",
            result.path
        );
    }
    assert!(!report.results.is_empty());
}

#[test]
fn unrelated_query_returns_low_relevance() {
    let report = asked("something unrelated", vec![]);
    if !report.results.is_empty() {
        let top = value(report.results[0].score);
        assert!(top < 0.5, "unrelated query should have low score, got {top}");
    }
}

#[test]
fn embedder_mismatch_is_caught() {
    let (mut store, embedder) = seeded_env();
    store
        .set_metadata(
            &Namespace::from("integration"),
            &NamespaceMetadata {
                hwm_sha: Some("sha".into()),
                embedder: Some("voyage/voyage-code-3".into()),
                ..Default::default()
            },
        )
        .unwrap();
    let search = SearchRun::new(Namespace::from("integration"));
    let msg = run(&search, &embedder, &store, &everything(vec![])).unwrap_err();
    assert!(msg.contains("embedder mismatch"), "got: {msg}");
    assert!(msg.contains("voyage/voyage-code-3"), "got: {msg}");
    assert!(msg.contains("mock/mock-embed-v1"), "got: {msg}");
}

fn graded(case: &EvalCase) -> CaseResult {
    let mut embedder = MockEmbedder::new(3);
    embedder.set_override("what is main", vec![0.95, 0.05, 0.0]);
    embedder.set_override("what is lib", vec![0.05, 0.95, 0.0]);
    let mut store = MockVectorStore::new();
    store.create_namespace(&Namespace::from("test"), 3).unwrap();
    let mut main = code_doc("src/main.rs");
    main.summary = "Main module".into();
    let mut lib = code_doc("src/lib.rs");
    lib.summary = "Library root".into();
    lib.vector = bits(vec![0.0, 1.0, 0.0]);
    store.upsert(&Namespace::from("test"), &vec![main, lib]).unwrap();
    let search = SearchRun::new(Namespace::from("test"));
    let report = run(&search, &embedder, &store, &case_params(case)).unwrap();
    let contents = report
        .results
        .iter()
        .map(|r| Content {
            path: r.path.clone(),
            content: if r.path == "src/main.rs" {
                "fn main() {}\n".repeat(50)
            } else {
                "pub mod foo;\n".repeat(50)
            },
        })
        .collect();
    let json: String = report.results.iter().map(|r| r.path.as_str()).collect();
    grade_case(case, &report, &json, &contents, 7)
}

fn eval_case(query: &str, files: &[&str], symbols: &[&str], tags: &[&str]) -> EvalCase {
    EvalCase {
        query: query.into(),
        expected_files: files.iter().map(|s| s.to_string()).collect(),
        expected_symbols: symbols.iter().map(|s| s.to_string()).collect(),
        top_k: 5,
        label: None,
        tags: tags.iter().map(|s| s.to_string()).collect(),
    }
}

#[test]
fn run_case_compression() {
    let result = graded(&eval_case("what is main", &[], &[], &[]));
    assert!(result.compression.ratio.num < result.compression.ratio.den);
    assert!(result.relevance.is_none());
    assert!(result.files_returned > 0);
    assert_eq!(result.elapsed_ms, 7);
}

#[test]
fn run_case_relevance() {
    let result = graded(&eval_case("what is main", &["src/main.rs"], &[], &[]));
    let rel = result.relevance.unwrap();
    assert_eq!(rel.recall_at_k.num, rel.recall_at_k.den);
    assert!(rel.found.contains(&"src/main.rs".to_string()));
}

#[test]
fn run_case_symbol_relevance() {
    let result = graded(&eval_case("what is main", &[], &["nonexistent_symbol"], &[]));
    let sym = result.symbol_relevance.expect("symbol relevance computed");
    assert_eq!(sym.recall.num, 0);
    assert_eq!(sym.missed, vec!["nonexistent_symbol"]);
}

#[test]
fn run_suite_summary() {
    let cases = vec![
        graded(&eval_case("what is main", &["src/main.rs"], &[], &["nl"])),
        graded(&eval_case("what is lib", &["src/lib.rs"], &[], &["nl"])),
    ];
    let summary = compute_summary(&cases);
    assert_eq!(summary.total_cases, 2);
    assert_eq!(summary.recalls.len(), 2);
    let by_tag = compute_by_tag(&cases);
    assert_eq!(by_tag.len(), 1);
    assert_eq!(by_tag[0].tag, "nl");
    assert_eq!(by_tag[0].cases, 2);
}

#[test]
fn invalid_areas_are_named() {
    let mut reg = DecisionRegistry::default();
    reg.upsert(entry(3, "Broken", &["src/[oops"]));
    let e = compile_decisions(&reg).err().unwrap();
    assert!(matches!(e, SearchError::InvalidArea { id: 3, .. }));
    assert_eq!(e.message(), "decision 3 has invalid area glob 'src/[oops'");
}

#[test]
fn areas_cover_paths_of_any_case() {
    let mut reg = DecisionRegistry::default();
    reg.upsert(entry(1, "Rounding", &["src/finance/**"]));
    let ds = compile_decisions(&reg).unwrap();
    assert_eq!(governing_for("SRC/Finance/a.rs", &ds).len(), 1);
    assert!(governing_for("src/other/a.rs", &ds).is_empty());
}

#[test]
fn files_and_symbols_come_in_order_of_score() {
    let hit = |result| SourcedHit { result, source: None };
    let hits = vec![
        hit(sample_result("low.rs", score(0.25), ChunkKind::File)),
        hit(sample_result("high.rs", score(0.75), ChunkKind::File)),
        hit(sample_symbol_result("high.rs", "b", "function", score(0.5), (3, 4))),
        hit(sample_symbol_result("high.rs", "a", "function", score(0.625), (1, 2))),
    ];
    let mut params = everything(vec![]);
    let files = group_results_multi(&hits, &params, &None, &vec![]);
    assert_eq!(files.len(), 2);
    assert_eq!(files[0].path, "high.rs");
    let names: Vec<&str> = files[0].symbols.iter().map(|s| s.name.as_str()).collect();
    assert_eq!(names, vec!["a", "b"]);
    assert_eq!(files[0].symbols[0].lines, [1, 2]);
    params.top_k = 1;
    assert_eq!(group_results_multi(&hits, &params, &None, &vec![]).len(), 1);
}

#[test]
fn failures_of_the_store_are_passed_on() {
    let search = SearchRun::new(Namespace::from("test"));
    let outcomes = vec![Outcome::Failed(SearchError::Outside { message: "down".into() })];
    assert_eq!(search.assemble_round(&outcomes, 3).err().unwrap().message(), "down");
}

#[test]
fn a_decision_does_not_override_itself() {
    let own = decision_meta("decision://0001", &["src/**"], true, &["decision://0001"]);
    let governing = governing_for("src/a.rs", &vec![own]);
    assert_eq!(governing.len(), 1);
    assert_eq!(governing[0].path, "decision://0001");
}

#[test]
fn every_fetched_item_is_processed_or_fails() {
    let mut store = MockVectorStore::new();
    let taps = || {
        vec![
            MockTap::with_deletions("files", fixture_items(), vec!["gone.rs".into()]),
            MockTap::with_cursor("extra", fixture_items(), "c2".into()),
        ]
    };
    let fetched = 2 * fixture_items().len();
    let good = index(
        taps(),
        Some(MockSummarizer::new()),
        &mut store,
        "test-counts",
        EmbedMode::Summary,
        true,
    )
    .unwrap();
    assert_eq!(good.files_processed + good.files_failed, fetched);
    assert_eq!(good.files_failed, 0);
    assert_eq!(good.vectors_deleted, 1);
    assert_eq!(good.hwm_advanced_to.as_deref(), Some("c2"));
    let bad =
        index(taps(), None, &mut store, "test-counts", EmbedMode::Summary, true).unwrap();
    assert_eq!(bad.files_processed + bad.files_failed, fetched);
    assert_eq!(bad.files_failed, fetched);
}
