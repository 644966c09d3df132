//! The stand-ins for stores, taps and summarizers.
use wdpkr_core::chunk::Import;
use wdpkr_core::store::{
    ChunkKind, Namespace, NamespaceMetadata, Score, SearchOptions, SearchResult, VectorDocument,
};
use wdpkr_core::summarize::{FileSummaryInput, SymbolSummaryInput};
use wdpkr_core::testing::mock_store::{MockVectorStore, StoreFailure};
use wdpkr_core::testing::mock_summarize::MockSummarizer;
use wdpkr_core::testing::mock_tap::MockTap;
use wdpkr_core::testing::{
    sample_document, sample_result, sample_symbol_document, sample_symbol_result,
};

fn score(x: f32) -> Score {
    Score { bits: x.to_bits() }
}

fn bits(v: Vec<f32>) -> Vec<u32> {
    v.iter().map(|x| x.to_bits()).collect()
}

fn cosine_similarity(a: &[f32], b: &[f32]) -> f32 {
    let dot: f32 = a.iter().zip(b).map(|(x, y)| x * y).sum();
    let mag_a: f32 = a.iter().map(|x| x * x).sum::<f32>().sqrt();
    let mag_b: f32 = b.iter().map(|x| x * x).sum::<f32>().sqrt();
    if mag_a == 0.0 || mag_b == 0.0 {
        0.0
    } else {
        dot / (mag_a * mag_b)
    }
}

fn query_store(
    store: &MockVectorStore,
    ns: &Namespace,
    query: &[f32],
    options: &SearchOptions,
) -> Result<Vec<SearchResult>, StoreFailure> {
    let scores = match store.list_documents(ns) {
        Ok(docs) => docs
            .iter()
            .map(|d| {
                let v: Vec<f32> = d.vector.iter().map(|b| f32::from_bits(*b)).collect();
                score(cosine_similarity(query, &v))
            })
            .collect(),
        Err(_) => vec![],
    };
    store.search(ns, &scores, options)
}

#[test]
fn sample_document_file_level() {
    let doc = sample_document("src/main.rs", ChunkKind::File);
    assert_eq!(doc.file_path, "src/main.rs");
    assert_eq!(doc.chunk_kind, ChunkKind::File);
    assert!(doc.symbol_name.is_none());
    assert_eq!(doc.vector.len(), 1024);
    assert!(doc.id.contains("src/main.rs"));
}

#[test]
fn sample_symbol_document_populates_symbol_fields() {
    let doc = sample_symbol_document("src/lib.rs", "run", "function", 10, 25);
    assert_eq!(doc.chunk_kind, ChunkKind::Symbol);
    assert_eq!(doc.symbol_name.as_deref(), Some("run"));
    assert_eq!(doc.symbol_kind.as_deref(), Some("function"));
    assert_eq!(doc.start_line, Some(10));
    assert_eq!(doc.end_line, Some(25));
}

#[test]
fn sample_result_file_level() {
    let r = sample_result("src/main.rs", score(0.87), ChunkKind::File);
    assert_eq!(r.file_path, "src/main.rs");
    assert_eq!(r.score, score(0.87));
    assert!(r.symbol_name.is_none());
}

#[test]
fn sample_symbol_result_populates_all_fields() {
    let r = sample_symbol_result("src/lib.rs", "dispatch", "function", score(0.91), (42, 78));
    assert_eq!(r.symbol_name.as_deref(), Some("dispatch"));
    assert_eq!(r.start_line, Some(42));
    assert_eq!(r.end_line, Some(78));
    assert_eq!(r.score, score(0.91));
}

#[test]
fn ids_are_deterministic() {
    let a = sample_document("src/main.rs", ChunkKind::File);
    let b = sample_document("src/main.rs", ChunkKind::File);
    assert_eq!(a.id, b.id);

    let c = sample_document("src/lib.rs", ChunkKind::File);
    assert_ne!(a.id, c.id);
}

#[test]
fn file_summary_is_deterministic() {
    let s = MockSummarizer::new();
    let input = FileSummaryInput {
        file_path: "src/main.rs".into(),
        content: "fn main() {}".into(),
        imports: vec![Import {
            module: "std".into(),
            names: vec![],
        }],
        language: "rust".into(),
    };
    let a = s.summarize_file(&input);
    let b = s.summarize_file(&input);
    assert_eq!(a, b);
    assert!(a.contains("src/main.rs"));
    assert!(a.contains("rust"));
    assert!(a.contains("1 imports"));
}

#[test]
fn symbol_summary_includes_context() {
    let s = MockSummarizer::new();
    let input = SymbolSummaryInput {
        symbol_name: "release_payment".into(),
        symbol_kind: "function".into(),
        body: "pub fn release_payment() {}".into(),
        signature: None,
        doc_comment: None,
        file_path: "src/payments.rs".into(),
        file_summary: "Payment processing service.".into(),
    };
    let summary = s.summarize_symbol(&input);
    assert!(summary.contains("release_payment"));
    assert!(summary.contains("function"));
    assert!(summary.contains("Payment processing service."));
}

#[test]
fn model_name() {
    assert_eq!(MockSummarizer::new().model_name(), "mock-summarizer-v1");
}

#[test]
fn name_matches_constructor() {
    let p = MockTap::new("linear", vec![]);
    assert_eq!(p.name(), "linear");
}

#[test]
fn default_deletions_empty() {
    let p = MockTap::new("test", vec![]);
    assert!(p.deletions.is_empty());
}

fn ns(name: &str) -> Namespace {
    Namespace::from(name)
}

fn doc_with_vector(id: &str, file_path: &str, vector: Vec<u32>) -> VectorDocument {
    VectorDocument {
        id: id.into(),
        vector,
        summary: format!("summary of {id}"),
        file_path: file_path.into(),
        chunk_kind: ChunkKind::File,
        symbol_name: None,
        symbol_kind: None,
        start_line: None,
        end_line: None,
        language: Some("rust".into()),
        content_hash: None,
        calls: None,
        called_by: None,
        last_used_at: None,
    }
}

#[test]
fn create_and_check_namespace() {
    let mut store = MockVectorStore::new();
    assert!(!store.namespace_exists(&ns("repo")));
    store.create_namespace(&ns("repo"), 3).unwrap();
    assert!(store.namespace_exists(&ns("repo")));
}

#[test]
fn create_duplicate_namespace_errors() {
    let mut store = MockVectorStore::new();
    store.create_namespace(&ns("repo"), 3).unwrap();
    assert!(store.create_namespace(&ns("repo"), 3).is_err());
}

#[test]
fn delete_namespace() {
    let mut store = MockVectorStore::new();
    store.create_namespace(&ns("repo"), 3).unwrap();
    store.delete_namespace(&ns("repo"));
    assert!(!store.namespace_exists(&ns("repo")));
}

#[test]
fn metadata_round_trip() {
    let mut store = MockVectorStore::new();
    store.create_namespace(&ns("repo"), 3).unwrap();

    let meta = NamespaceMetadata {
        hwm_sha: Some("abc123".into()),
        embedder: Some("voyage/voyage-code-3".into()),
        ..Default::default()
    };
    store.set_metadata(&ns("repo"), &meta).unwrap();

    let loaded = store.get_metadata(&ns("repo")).unwrap();
    assert_eq!(loaded.hwm_sha.as_deref(), Some("abc123"));
    assert_eq!(loaded.embedder.as_deref(), Some("voyage/voyage-code-3"));
}

#[test]
fn metadata_on_missing_namespace_errors() {
    let mut store = MockVectorStore::new();
    assert!(store.get_metadata(&ns("nope")).is_err());
}

#[test]
fn upsert_and_search() {
    let mut store = MockVectorStore::new();
    store.create_namespace(&ns("repo"), 3).unwrap();

    let docs = vec![
        doc_with_vector("a", "src/a.rs", bits(vec![1.0, 0.0, 0.0])),
        doc_with_vector("b", "src/b.rs", bits(vec![0.0, 1.0, 0.0])),
        doc_with_vector("c", "src/c.rs", bits(vec![0.7, 0.7, 0.0])),
    ];
    let stats = store.upsert(&ns("repo"), &docs).unwrap();
    assert_eq!(stats.upserted, 3);

    // Query close to [1,0,0] → "a" should rank first, "c" second, "b" last
    let query = vec![0.9f32, 0.1, 0.0];
    let results = query_store(&store, &ns("repo"), &query, &SearchOptions {
                top_k: 3,
                ..Default::default()
            })
        .unwrap();

    assert_eq!(results.len(), 3);
    assert_eq!(results[0].id, "a");
    assert_eq!(results[1].id, "c");
    assert_eq!(results[2].id, "b");
}

#[test]
fn search_respects_top_k() {
    let mut store = MockVectorStore::new();
    store.create_namespace(&ns("repo"), 3).unwrap();

    let docs = vec![
        doc_with_vector("a", "src/a.rs", bits(vec![1.0, 0.0, 0.0])),
        doc_with_vector("b", "src/b.rs", bits(vec![0.0, 1.0, 0.0])),
    ];
    store.upsert(&ns("repo"), &docs).unwrap();

    let results = query_store(&store, &ns("repo"), &[1.0, 0.0, 0.0], &SearchOptions {
                top_k: 1,
                ..Default::default()
            })
        .unwrap();
    assert_eq!(results.len(), 1);
    assert_eq!(results[0].id, "a");
}

#[test]
fn search_filters_by_path_prefix() {
    let mut store = MockVectorStore::new();
    store.create_namespace(&ns("repo"), 3).unwrap();

    let docs = vec![
        doc_with_vector("a", "src/finance/a.rs", bits(vec![1.0, 0.0, 0.0])),
        doc_with_vector("b", "src/auth/b.rs", bits(vec![1.0, 0.0, 0.0])),
    ];
    store.upsert(&ns("repo"), &docs).unwrap();

    let results = query_store(&store, &ns("repo"), &[1.0, 0.0, 0.0], &SearchOptions {
                top_k: 10,
                path_prefixes: vec!["src/finance/".into()],
                ..Default::default()
            })
        .unwrap();
    assert_eq!(results.len(), 1);
    assert_eq!(results[0].file_path, "src/finance/a.rs");
}

#[test]
fn search_filters_by_multiple_prefixes() {
    let mut store = MockVectorStore::new();
    store.create_namespace(&ns("repo"), 3).unwrap();

    let docs = vec![
        doc_with_vector("a", "src/finance/a.rs", bits(vec![1.0, 0.0, 0.0])),
        doc_with_vector("b", "src/auth/b.rs", bits(vec![1.0, 0.0, 0.0])),
        doc_with_vector("c", "src/api/c.rs", bits(vec![1.0, 0.0, 0.0])),
    ];
    store.upsert(&ns("repo"), &docs).unwrap();

    let results = query_store(&store, &ns("repo"), &[1.0, 0.0, 0.0], &SearchOptions {
                top_k: 10,
                path_prefixes: vec!["src/finance/".into(), "src/auth/".into()],
                ..Default::default()
            })
        .unwrap();
    assert_eq!(results.len(), 2);
    let paths: Vec<&str> = results.iter().map(|r| r.file_path.as_str()).collect();
    assert!(paths.contains(&"src/finance/a.rs"));
    assert!(paths.contains(&"src/auth/b.rs"));
}

#[test]
fn search_filters_by_chunk_kind() {
    let mut store = MockVectorStore::new();
    store.create_namespace(&ns("repo"), 3).unwrap();

    let mut file_doc = doc_with_vector("f", "src/a.rs", bits(vec![1.0, 0.0, 0.0]));
    file_doc.chunk_kind = ChunkKind::File;

    let mut sym_doc = doc_with_vector("s", "src/a.rs", bits(vec![1.0, 0.0, 0.0]));
    sym_doc.chunk_kind = ChunkKind::Symbol;
    sym_doc.symbol_name = Some("run".into());

    store
        .upsert(&ns("repo"), &vec![file_doc, sym_doc])
        .unwrap();

    let results = query_store(&store, &ns("repo"), &[1.0, 0.0, 0.0], &SearchOptions {
                top_k: 10,
                chunk_kind: Some(ChunkKind::Symbol),
                ..Default::default()
            })
        .unwrap();
    assert_eq!(results.len(), 1);
    assert_eq!(results[0].symbol_name.as_deref(), Some("run"));
}

#[test]
fn search_filters_by_min_score() {
    let mut store = MockVectorStore::new();
    store.create_namespace(&ns("repo"), 3).unwrap();

    let docs = vec![
        doc_with_vector("close", "src/a.rs", bits(vec![1.0, 0.0, 0.0])),
        doc_with_vector("far", "src/b.rs", bits(vec![0.0, 0.0, 1.0])),
    ];
    store.upsert(&ns("repo"), &docs).unwrap();

    let results = query_store(&store, &ns("repo"), &[1.0, 0.0, 0.0], &SearchOptions {
                top_k: 10,
                min_score: Some(score(0.5)),
                ..Default::default()
            })
        .unwrap();
    assert_eq!(results.len(), 1);
    assert_eq!(results[0].id, "close");
}

#[test]
fn delete_by_ids() {
    let mut store = MockVectorStore::new();
    store.create_namespace(&ns("repo"), 3).unwrap();

    let docs = vec![
        doc_with_vector("a", "src/a.rs", bits(vec![1.0, 0.0, 0.0])),
        doc_with_vector("b", "src/b.rs", bits(vec![0.0, 1.0, 0.0])),
    ];
    store.upsert(&ns("repo"), &docs).unwrap();
    store.delete_by_ids(&ns("repo"), &vec!["a".to_string()]).unwrap();

    let results = query_store(&store, &ns("repo"), &[1.0, 1.0, 0.0], &SearchOptions {
                top_k: 10,
                ..Default::default()
            })
        .unwrap();
    assert_eq!(results.len(), 1);
    assert_eq!(results[0].id, "b");
}

#[test]
fn delete_by_file() {
    let mut store = MockVectorStore::new();
    store.create_namespace(&ns("repo"), 3).unwrap();

    let docs = vec![
        doc_with_vector("f1", "src/a.rs", bits(vec![1.0, 0.0, 0.0])),
        doc_with_vector("s1", "src/a.rs", bits(vec![0.9, 0.1, 0.0])),
        doc_with_vector("f2", "src/b.rs", bits(vec![0.0, 1.0, 0.0])),
    ];
    store.upsert(&ns("repo"), &docs).unwrap();
    store.delete_by_file(&ns("repo"), "src/a.rs").unwrap();

    let results = query_store(&store, &ns("repo"), &[1.0, 1.0, 0.0], &SearchOptions {
                top_k: 10,
                ..Default::default()
            })
        .unwrap();
    assert_eq!(results.len(), 1);
    assert_eq!(results[0].file_path, "src/b.rs");
}

#[test]
fn upsert_overwrites_existing_id() {
    let mut store = MockVectorStore::new();
    store.create_namespace(&ns("repo"), 3).unwrap();

    store
        .upsert(
            &ns("repo"),
            &vec![doc_with_vector("a", "src/a.rs", bits(vec![1.0, 0.0, 0.0]))],
        )
        .unwrap();

    // Upsert same ID with different summary
    let mut updated = doc_with_vector("a", "src/a.rs", bits(vec![1.0, 0.0, 0.0]));
    updated.summary = "updated summary".into();
    store.upsert(&ns("repo"), &vec![updated]).unwrap();

    let results = query_store(&store, &ns("repo"), &[1.0, 0.0, 0.0], &SearchOptions {
                top_k: 10,
                ..Default::default()
            })
        .unwrap();
    assert_eq!(results.len(), 1);
    assert_eq!(results[0].summary, "updated summary");
}

#[test]
fn upsert_dimension_mismatch_errors() {
    let mut store = MockVectorStore::new();
    store.create_namespace(&ns("repo"), 3).unwrap();

    let bad_doc = doc_with_vector("a", "src/a.rs", bits(vec![1.0, 0.0])); // 2 dims, namespace is 3
    assert!(store.upsert(&ns("repo"), &vec![bad_doc]).is_err());
}

#[test]
fn search_on_missing_namespace_errors() {
    let mut store = MockVectorStore::new();
    assert!(
        query_store(&store, &ns("nope"), &[1.0], &SearchOptions {
                    top_k: 5,
                    ..Default::default()
                })
            .is_err()
    );
}

#[test]
fn failures_say_what_is_wrong() {
    let mut store = MockVectorStore::new();
    let missing = store.get_metadata(&ns("repo")).unwrap_err();
    assert_eq!(missing.message(), "namespace 'repo' not found");
    store.create_namespace(&ns("repo"), 3).unwrap();
    let twice = store.create_namespace(&ns("repo"), 3).unwrap_err();
    assert_eq!(twice.message(), "namespace 'repo' already exists");
    let docs = vec![
        doc_with_vector("a", "src/a.rs", bits(vec![1.0, 0.0, 0.0])),
        doc_with_vector("b", "src/b.rs", bits(vec![1.0, 0.0])),
    ];
    let short = store.upsert(&ns("repo"), &docs).unwrap_err();
    assert_eq!(short.message(), "vector dimension mismatch: expected 3, got 2");
    assert_eq!(store.list_documents(&ns("repo")).unwrap().len(), 1);
    let glob = store.delete_by_glob(&ns("repo"), "src/[oops").unwrap_err();
    assert!(glob.message().starts_with("invalid glob: "), "{}", glob.message());
}

#[test]
fn operations_on_missing_namespaces_fail() {
    let mut store = MockVectorStore::new();
    assert!(store.set_metadata(&ns("x"), &NamespaceMetadata::default()).is_err());
    assert!(store.upsert(&ns("x"), &vec![]).is_err());
    assert!(store.delete_by_ids(&ns("x"), &vec![]).is_err());
    assert!(store.delete_by_file(&ns("x"), "a").is_err());
    assert!(store.delete_by_glob(&ns("x"), "*").is_err());
    assert!(store.touch_by_file(&ns("x"), "a", 1).is_err());
    assert!(store.get_content_hashes(&ns("x")).is_err());
    assert!(store.list_documents(&ns("x")).is_err());
    assert_eq!(store.document_count(&ns("x"), "a"), 0);
}

#[test]
fn deleting_by_glob_minds_case() {
    let mut store = MockVectorStore::new();
    store.create_namespace(&ns("repo"), 3).unwrap();
    let docs = vec![
        doc_with_vector("a", "src/a.rs", bits(vec![1.0, 0.0, 0.0])),
        doc_with_vector("b", "SRC/b.rs", bits(vec![1.0, 0.0, 0.0])),
        doc_with_vector("c", "docs/c.md", bits(vec![1.0, 0.0, 0.0])),
    ];
    store.upsert(&ns("repo"), &docs).unwrap();
    assert_eq!(store.delete_by_glob(&ns("repo"), "src/**").unwrap(), 1);
    let left: Vec<String> =
        store.list_documents(&ns("repo")).unwrap().into_iter().map(|d| d.id).collect();
    assert_eq!(left, vec!["b", "c"]);
}

#[test]
fn touching_marks_all_documents_of_a_file() {
    let mut store = MockVectorStore::new();
    store.create_namespace(&ns("repo"), 3).unwrap();
    let docs = vec![
        doc_with_vector("a", "src/a.rs", bits(vec![1.0, 0.0, 0.0])),
        doc_with_vector("a2", "src/a.rs", bits(vec![1.0, 0.0, 0.0])),
        doc_with_vector("b", "src/b.rs", bits(vec![1.0, 0.0, 0.0])),
    ];
    store.upsert(&ns("repo"), &docs).unwrap();
    assert_eq!(store.touch_by_file(&ns("repo"), "src/a.rs", 99).unwrap(), 2);
    let stamps: Vec<Option<i64>> =
        store.list_documents(&ns("repo")).unwrap().iter().map(|d| d.last_used_at).collect();
    assert_eq!(stamps, vec![Some(99), Some(99), None]);
}

#[test]
fn hashes_are_those_of_file_documents() {
    let mut store = MockVectorStore::new();
    store.create_namespace(&ns("repo"), 3).unwrap();
    let mut a = doc_with_vector("a", "src/a.rs", bits(vec![1.0, 0.0, 0.0]));
    a.content_hash = Some("ha".into());
    let mut s = doc_with_vector("s", "src/b.rs", bits(vec![1.0, 0.0, 0.0]));
    s.chunk_kind = ChunkKind::Symbol;
    s.content_hash = Some("hs".into());
    store.upsert(&ns("repo"), &vec![a, s]).unwrap();
    let hashes = store.get_content_hashes(&ns("repo")).unwrap();
    assert_eq!(hashes.get("src/a.rs"), Some("ha"));
    assert_eq!(hashes.get("src/b.rs"), None);
}

#[test]
fn namespaces_do_not_touch_each_other() {
    let mut store = MockVectorStore::new();
    store.create_namespace(&ns("one"), 3).unwrap();
    store.create_namespace(&ns("two"), 3).unwrap();
    let doc = doc_with_vector("a", "src/a.rs", bits(vec![1.0, 0.0, 0.0]));
    store.upsert(&ns("one"), &vec![doc.clone()]).unwrap();
    store.upsert(&ns("two"), &vec![doc]).unwrap();
    store.delete_by_file(&ns("one"), "src/a.rs").unwrap();
    assert_eq!(store.document_count(&ns("one"), "src/a.rs"), 0);
    assert_eq!(store.document_count(&ns("two"), "src/a.rs"), 1);
    store.delete_namespace(&ns("one"));
    assert!(store.namespace_exists(&ns("two")));
}

#[test]
fn languages_filter_searches() {
    let mut store = MockVectorStore::new();
    store.create_namespace(&ns("repo"), 3).unwrap();
    let mut py = doc_with_vector("p", "a.py", bits(vec![1.0, 0.0, 0.0]));
    py.language = Some("python".into());
    let rs = doc_with_vector("r", "a.rs", bits(vec![1.0, 0.0, 0.0]));
    store.upsert(&ns("repo"), &vec![py, rs]).unwrap();
    let options = SearchOptions { language: Some("python".into()), ..Default::default() };
    let hits = query_store(&store, &ns("repo"), &[1.0, 0.0, 0.0], &options).unwrap();
    assert_eq!(hits.len(), 1);
    assert_eq!(hits[0].id, "p");
}

#[test]
fn scores_are_ordered_as_numbers() {
    assert!(score(0.5).above(score(0.25)));
    assert!(score(0.25).above(score(-0.5)));
    assert!(score(-0.25).above(score(-0.5)));
    assert!(!score(0.0).above(score(-0.0)));
    assert!(score(f32::NAN).is_nan());
    assert!(!score(f32::INFINITY).is_nan());
    assert!(!score(f32::NAN).at_least(score(0.0)));
}

#[test]
fn sample_vectors_are_tenths_and_fifths() {
    let file = sample_document("a", ChunkKind::File);
    assert!(file.vector.iter().all(|b| f32::from_bits(*b) == 0.1));
    let symbol = sample_symbol_document("a", "f", "function", 1, 2);
    assert!(symbol.vector.iter().all(|b| f32::from_bits(*b) == 0.2));
}

#[test]
fn the_best_documents_are_found() {
    let ns = Namespace::from("repo");
    let mut store = MockVectorStore::new();
    store.create_namespace(&ns, 1).unwrap();
    let docs: Vec<VectorDocument> = ["a", "b", "c", "d"]
        .iter()
        .map(|id| doc_with_vector(id, "src/a.rs", bits(vec![1.0])))
        .collect();
    store.upsert(&ns, &docs).unwrap();
    let scores = vec![score(0.1), score(0.9), score(-0.5), score(0.7)];
    let ask = |top_k: usize| -> Vec<String> {
        let options = SearchOptions { top_k, ..SearchOptions::default() };
        store.search(&ns, &scores, &options).unwrap().into_iter().map(|h| h.id).collect()
    };
    assert_eq!(ask(2), vec!["b", "d"]);
    assert_eq!(ask(0), vec!["b", "d", "a", "c"]);
    assert_eq!(ask(9).len(), 4);
}
