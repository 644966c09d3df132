//! Configuration: layers, sources, settings of backends and of taps.
use wdpkr_core::config::embed::EmbedConfig;
use wdpkr_core::config::indexer::IndexerConfig;
use wdpkr_core::config::store::{SettingSpec, StoreBackend, StoreConfig};
use wdpkr_core::config::summarizer::SummarizerConfig;
use wdpkr_core::config::tap::{resolve, DecayConfig, DecayError, FileTapConfig, TapConfig};
use wdpkr_core::config::value::{Field, Number, Scalar, Setting, Settings, Value};
use wdpkr_core::config::{
    env_or, file_or, Config, ConfigError, Env, FileConfig, FileEmbedConfig, FileIndexerConfig,
    FileStoreConfig, ResolvedConfig, Source,
};
use wdpkr_core::number::Real;
use wdpkr_core::textmap::TextMap;

fn double(x: f64) -> Real {
    Real { bits: x.to_bits() }
}

fn number(x: Real) -> f64 {
    f64::from_bits(x.bits)
}

fn parsed(text: &str) -> Option<Real> {
    text.parse::<f64>().ok().map(double)
}

fn no_env() -> Env {
    Env {
        vars: TextMap::new(),
        max_cost: None,
        hwm_success_threshold: None,
        default_model: "some-model".into(),
    }
}

fn set_env(env: &mut Env, key: &str, value: &str) {
    env.vars.insert(key, value);
    if key == "WDPKR_MAX_COST" {
        env.max_cost = parsed(value);
    }
    if key == "WDPKR_HWM_SUCCESS_THRESHOLD" {
        env.hwm_success_threshold = parsed(value);
    }
}

fn fixture() -> Vec<StoreBackend> {
    vec![StoreBackend {
        name: "fixture".into(),
        settings: vec![
            SettingSpec {
                key: "path",
                env: "WDPKR_FIXTURE_PATH",
                secret: false,
                default: "/default/fixture/path".into(),
                file_aliases: vec![],
            },
            SettingSpec {
                key: "api_key",
                env: "WDPKR_FIXTURE_API_KEY",
                secret: true,
                default: String::new(),
                file_aliases: vec!["fixture_api_key"],
            },
        ],
    }]
}

fn insert(settings: &mut Settings, key: &str, text: &str) {
    settings.entries.push(Setting {
        key: key.to_string(),
        value: Value::One(Scalar::Text(text.to_string())),
    });
}

fn scalar(v: &serde_yaml::Value) -> Scalar {
    match v {
        serde_yaml::Value::Null => Scalar::Null,
        serde_yaml::Value::Bool(b) => Scalar::Bool(*b),
        serde_yaml::Value::Number(n) => Scalar::Number(Number {
            unsigned: n.as_u64(),
            negative: n.as_i64().filter(|i| *i < 0),
            value: double(n.as_f64().unwrap()),
        }),
        serde_yaml::Value::String(s) => Scalar::Text(s.clone()),
        other => Scalar::Other(format!("{other:?}")),
    }
}

fn settings(yaml: &str) -> Settings {
    let v: serde_yaml::Mapping = serde_yaml::from_str(yaml).unwrap();
    Settings {
        entries: v
            .iter()
            .map(|(k, v)| Setting {
                key: k.as_str().unwrap().to_string(),
                value: match v {
                    serde_yaml::Value::Mapping(m) => Value::Table(
                        m.iter()
                            .map(|(k, v)| Field {
                                key: k.as_str().unwrap().to_string(),
                                value: scalar(v),
                            })
                            .collect(),
                    ),
                    other => Value::One(scalar(other)),
                },
            })
            .collect(),
    }
}

#[test]
fn embed_defaults() {
    let env = no_env();
    let cfg = EmbedConfig::from_env(&None, &env);
    assert_eq!(cfg.provider, "voyage");
    assert_eq!(cfg.model, "voyage-code-3");
    assert_eq!(cfg.batch_size, 64);
    assert_eq!(cfg.embed_mode, "summary");
    assert_eq!(cfg.ollama_host, "http://localhost:11434");
    assert_eq!(cfg.voyage_api_key, "");
}

#[test]
fn embed_mode_env_override() {
    let mut env = no_env();
    set_env(&mut env, "WDPKR_EMBED_MODE", "docstring");
    let cfg = EmbedConfig::from_env(&None, &env);
    assert_eq!(cfg.embed_mode, "docstring");
}

#[test]
fn validate_rejects_unknown_embed_mode() {
    let mut env = no_env();
    set_env(&mut env, "WDPKR_EMBED_MODE", "bananas");
    set_env(&mut env, "WDPKR_EMBED_PROVIDER", "ollama");
    let cfg = EmbedConfig::from_env(&None, &env);
    let err = cfg.validate().unwrap_err();
    assert!(err.message().contains("embed_mode"));
}

#[test]
fn ollama_provider_picks_nomic_default_model() {
    let mut env = no_env();
    set_env(&mut env, "WDPKR_EMBED_PROVIDER", "ollama");
    let cfg = EmbedConfig::from_env(&None, &env);
    assert_eq!(cfg.provider, "ollama");
    assert_eq!(cfg.model, "nomic-embed-text");
}

#[test]
fn openai_provider_picks_3_large_default_model() {
    let mut env = no_env();
    set_env(&mut env, "WDPKR_EMBED_PROVIDER", "openai");
    let cfg = EmbedConfig::from_env(&None, &env);
    assert_eq!(cfg.provider, "openai");
    assert_eq!(cfg.model, "text-embedding-3-large");
}

#[test]
fn explicit_model_overrides_provider_default() {
    let mut env = no_env();
    set_env(&mut env, "WDPKR_EMBED_PROVIDER", "ollama");
    set_env(&mut env, "WDPKR_EMBED_MODEL", "mxbai-embed-large");
    let cfg = EmbedConfig::from_env(&None, &env);
    assert_eq!(cfg.model, "mxbai-embed-large");
}

#[test]
fn batch_size_env_override() {
    let mut env = no_env();
    set_env(&mut env, "WDPKR_EMBED_BATCH_SIZE", "128");
    let cfg = EmbedConfig::from_env(&None, &env);
    assert_eq!(cfg.batch_size, 128);
}

#[test]
fn unknown_provider_falls_through_to_voyage_default_model() {
    let mut env = no_env();
    set_env(&mut env, "WDPKR_EMBED_PROVIDER", "made-up");
    let cfg = EmbedConfig::from_env(&None, &env);
    assert_eq!(cfg.provider, "made-up");
    assert_eq!(cfg.model, "voyage-code-3");
}

#[test]
fn file_value_used_when_env_absent() {
    let env = no_env();
    let file = FileConfig {
        embedder: Some(FileEmbedConfig {
            provider: Some("openai".into()),
            model: None,
            batch_size: Some(16),
            ollama_host: Some("http://ollama.internal:11434".into()),
            ..Default::default()
        }),
        ..Default::default()
    };
    let cfg = EmbedConfig::from_env(&Some(file), &env);
    assert_eq!(cfg.provider, "openai");
    // Model unspecified in file → provider-derived default kicks in
    assert_eq!(cfg.model, "text-embedding-3-large");
    assert_eq!(cfg.batch_size, 16);
    assert_eq!(cfg.ollama_host, "http://ollama.internal:11434");
}

#[test]
fn env_beats_file_for_provider() {
    let mut env = no_env();
    set_env(&mut env, "WDPKR_EMBED_PROVIDER", "voyage");
    let file = FileConfig {
        embedder: Some(FileEmbedConfig {
            provider: Some("ollama".into()),
            ..Default::default()
        }),
        ..Default::default()
    };
    let cfg = EmbedConfig::from_env(&Some(file), &env);
    assert_eq!(cfg.provider, "voyage");
    // Model default tracks the env-resolved provider, not the file's
    assert_eq!(cfg.model, "voyage-code-3");
}

#[test]
fn validate_fails_for_voyage_without_key() {
    let env = no_env();
    let cfg = EmbedConfig::from_env(&None, &env);
    let err = cfg.validate().unwrap_err();
    assert!(err.message().contains("VOYAGE_API_KEY"));
}

#[test]
fn validate_passes_for_voyage_with_key() {
    let mut env = no_env();
    set_env(&mut env, "VOYAGE_API_KEY", "key-abc");
    let cfg = EmbedConfig::from_env(&None, &env);
    assert!(cfg.validate().is_ok());
}

#[test]
fn validate_passes_for_ollama_without_any_key() {
    let mut env = no_env();
    set_env(&mut env, "WDPKR_EMBED_PROVIDER", "ollama");
    let cfg = EmbedConfig::from_env(&None, &env);
    assert!(cfg.validate().is_ok());
}

#[test]
fn validate_fails_for_openai_without_key() {
    let mut env = no_env();
    set_env(&mut env, "WDPKR_EMBED_PROVIDER", "openai");
    let cfg = EmbedConfig::from_env(&None, &env);
    let err = cfg.validate().unwrap_err();
    assert!(err.message().contains("OPENAI_API_KEY"));
}

#[test]
fn embed_resolve_marks_default_for_every_field_when_no_input() {
    let env = no_env();
    let (_, sources) = EmbedConfig::resolve(&None, &env);
    assert_eq!(sources.provider, Source::Default);
    assert_eq!(sources.model, Source::Default);
    assert_eq!(sources.batch_size, Source::Default);
    assert_eq!(sources.ollama_host, Source::Default);
}

#[test]
fn embed_resolve_marks_file_when_file_only() {
    let env = no_env();
    let file = FileConfig {
        embedder: Some(FileEmbedConfig {
            provider: Some("openai".into()),
            batch_size: Some(16),
            ..Default::default()
        }),
        ..Default::default()
    };
    let (_, sources) = EmbedConfig::resolve(&Some(file), &env);
    assert_eq!(sources.provider, Source::File);
    assert_eq!(sources.batch_size, Source::File);
    // model not in file → provider-derived default → Source::Default
    assert_eq!(sources.model, Source::Default);
}

#[test]
fn embed_resolve_marks_env_when_env_set() {
    let mut env = no_env();
    set_env(&mut env, "WDPKR_EMBED_PROVIDER", "ollama");
    set_env(&mut env, "WDPKR_EMBED_BATCH_SIZE", "256");
    let (_, sources) = EmbedConfig::resolve(&None, &env);
    assert_eq!(sources.provider, Source::Env("WDPKR_EMBED_PROVIDER"));
    assert_eq!(sources.batch_size, Source::Env("WDPKR_EMBED_BATCH_SIZE"));
}

#[test]
fn indexer_defaults() {
    let env = no_env();
    let cfg = IndexerConfig::from_env(&None, &env);
    assert_eq!(cfg.namespace, "");
    assert_eq!(cfg.default_branch, "main");
    assert_eq!(cfg.concurrency, 8);
    assert_eq!(number(cfg.max_cost), 50.0);
    assert_eq!(number(cfg.hwm_success_threshold), 0.95);
}

#[test]
fn env_overrides() {
    let mut env = no_env();
    set_env(&mut env, "WDPKR_CONCURRENCY", "16");
    set_env(&mut env, "WDPKR_MAX_COST", "100");
    set_env(&mut env, "WDPKR_NAMESPACE", "my-repo");
    let cfg = IndexerConfig::from_env(&None, &env);
    assert_eq!(cfg.concurrency, 16);
    assert_eq!(number(cfg.max_cost), 100.0);
    assert_eq!(cfg.namespace, "my-repo");
}

#[test]
fn parse_failure_uses_default() {
    let mut env = no_env();
    set_env(&mut env, "WDPKR_CONCURRENCY", "not-a-number");
    let cfg = IndexerConfig::from_env(&None, &env);
    // Per env_or contract: silent fallback on parse failure.
    assert_eq!(cfg.concurrency, 8);
}

#[test]
fn float_threshold_parses() {
    let mut env = no_env();
    set_env(&mut env, "WDPKR_HWM_SUCCESS_THRESHOLD", "0.8");
    let cfg = IndexerConfig::from_env(&None, &env);
    assert!((number(cfg.hwm_success_threshold) - 0.8).abs() < f64::EPSILON);
}

#[test]
fn indexer_file_values_used_when_env_absent() {
    let env = no_env();
    let file = FileConfig {
        indexer: Some(FileIndexerConfig {
            namespace: Some("fixed-ns".into()),
            default_branch: Some("trunk".into()),
            concurrency: Some(24),
            max_cost: Some(double(125.0)),
            hwm_success_threshold: Some(double(0.99)),
            ..Default::default()
        }),
        ..Default::default()
    };
    let cfg = IndexerConfig::from_env(&Some(file), &env);
    assert_eq!(cfg.namespace, "fixed-ns");
    assert_eq!(cfg.default_branch, "trunk");
    assert_eq!(cfg.concurrency, 24);
    assert_eq!(number(cfg.max_cost), 125.0);
    assert!((number(cfg.hwm_success_threshold) - 0.99).abs() < f64::EPSILON);
}

#[test]
fn env_beats_file() {
    let mut env = no_env();
    set_env(&mut env, "WDPKR_CONCURRENCY", "4");
    let file = FileConfig {
        indexer: Some(FileIndexerConfig {
            concurrency: Some(24),
            ..Default::default()
        }),
        ..Default::default()
    };
    let cfg = IndexerConfig::from_env(&Some(file), &env);
    assert_eq!(cfg.concurrency, 4);
}

#[test]
fn indexer_resolve_marks_default_for_every_field_when_no_input() {
    let env = no_env();
    let (_, sources) = IndexerConfig::resolve(&None, &env);
    assert_eq!(sources.namespace, Source::Default);
    assert_eq!(sources.default_branch, Source::Default);
    assert_eq!(sources.concurrency, Source::Default);
    assert_eq!(sources.max_cost, Source::Default);
    assert_eq!(sources.hwm_success_threshold, Source::Default);
}

#[test]
fn indexer_resolve_marks_file_when_file_only() {
    let env = no_env();
    let file = FileConfig {
        indexer: Some(FileIndexerConfig {
            concurrency: Some(24),
            max_cost: Some(double(125.0)),
            ..Default::default()
        }),
        ..Default::default()
    };
    let (_, sources) = IndexerConfig::resolve(&Some(file), &env);
    assert_eq!(sources.concurrency, Source::File);
    assert_eq!(sources.max_cost, Source::File);
    assert_eq!(sources.namespace, Source::Default);
}

#[test]
fn indexer_resolve_marks_env_when_env_set() {
    let mut env = no_env();
    set_env(&mut env, "WDPKR_CONCURRENCY", "16");
    set_env(&mut env, "WDPKR_MAX_COST", "200");
    let (_, sources) = IndexerConfig::resolve(&None, &env);
    assert_eq!(sources.concurrency, Source::Env("WDPKR_CONCURRENCY"));
    assert_eq!(sources.max_cost, Source::Env("WDPKR_MAX_COST"));
}

/// A `FileConfig` carrying only a `store:` block.
fn file_with(store: FileStoreConfig) -> Option<FileConfig> {
    Some(FileConfig {
        store: Some(store),
        ..Default::default()
    })
}

fn nested_file(backend: &str, key: &str, value: &str) -> Option<FileConfig> {
    let mut s = FileStoreConfig::default();
    s.set_nested(backend, key, value);
    file_with(s)
}

#[test]
fn provider_defaults_to_empty() {
    let env = no_env();
    let cfg = StoreConfig::from_env(&None, &env, &fixture());
    assert_eq!(cfg.provider, "", "core must not prefer a backend");
}

#[test]
fn provider_from_env_beats_file() {
    let mut env = no_env();
    set_env(&mut env, "WDPKR_STORE_PROVIDER", "from-env");
    let file = file_with(FileStoreConfig {
        provider: Some("from-file".into()),
        ..Default::default()
    });
    let cfg = StoreConfig::from_env(&file, &env, &fixture());
    assert_eq!(cfg.provider, "from-env");
}

#[test]
fn provider_from_file_when_env_absent() {
    let env = no_env();
    let file = file_with(FileStoreConfig {
        provider: Some("from-file".into()),
        ..Default::default()
    });
    assert_eq!(StoreConfig::from_env(&file, &env, &fixture()).provider, "from-file");
}

#[test]
fn setting_falls_back_to_provider_declared_default() {
    let env = no_env();
    let cfg = StoreConfig::from_env(&None, &env, &fixture());
    assert_eq!(cfg.get("fixture.path"), "/default/fixture/path");
}

#[test]
fn setting_read_from_nested_file_block() {
    let env = no_env();
    let file = nested_file("fixture", "path", "/from/file");
    assert_eq!(
        StoreConfig::from_env(&file, &env, &fixture()).get("fixture.path"),
        "/from/file"
    );
}

#[test]
fn setting_env_beats_file() {
    let mut env = no_env();
    set_env(&mut env, "WDPKR_FIXTURE_PATH", "/from/env");
    let file = nested_file("fixture", "path", "/from/file");
    assert_eq!(
        StoreConfig::from_env(&file, &env, &fixture()).get("fixture.path"),
        "/from/env"
    );
}

#[test]
fn deprecated_flat_alias_is_still_read() {
    let env = no_env();
    let mut s = FileStoreConfig::default();
    insert(&mut s.backends, "fixture_api_key", "legacy");
    assert_eq!(
        StoreConfig::from_env(&file_with(s), &env, &fixture()).get("fixture.api_key"),
        "legacy"
    );
}

#[test]
fn nested_form_beats_deprecated_alias() {
    let env = no_env();
    let mut s = FileStoreConfig::default();
    s.set_nested("fixture", "api_key", "nested");
    insert(&mut s.backends, "fixture_api_key", "legacy");
    assert_eq!(
        StoreConfig::from_env(&file_with(s), &env, &fixture()).get("fixture.api_key"),
        "nested"
    );
}

#[test]
fn unset_key_reads_as_empty_and_none() {
    let env = no_env();
    let cfg = StoreConfig::from_env(&None, &env, &fixture());
    assert_eq!(cfg.get("fixture.api_key"), "");
    assert_eq!(cfg.get_opt("fixture.api_key"), None);
    assert_eq!(cfg.get("no-such-backend.key"), "");
}

#[test]
fn new_builds_directly() {
    let cfg = StoreConfig::new("direct", &[("direct.path", "/p")]);
    assert_eq!(cfg.provider, "direct");
    assert_eq!(cfg.get("direct.path"), "/p");
    assert_eq!(cfg.keys(), vec!["direct.path"]);
}

#[test]
fn sources_track_where_each_setting_came_from() {
    let mut env = no_env();
    set_env(&mut env, "WDPKR_FIXTURE_API_KEY", "k");
    let file = nested_file("fixture", "path", "/from/file");
    let (_, sources) = StoreConfig::resolve(&file, &env, &fixture());
    assert_eq!(sources.get("fixture.path"), Some(&Source::File));
    assert_eq!(
        sources.get("fixture.api_key"),
        Some(&Source::Env("WDPKR_FIXTURE_API_KEY"))
    );

    let (_, sources) = StoreConfig::resolve(&None, &env, &fixture());
    assert_eq!(sources.get("fixture.path"), Some(&Source::Default));
    assert_eq!(sources.provider, Source::Default);
}

#[test]
fn validate_rejects_unset_provider() {
    let env = no_env();
    let err = StoreConfig::from_env(&None, &env, &fixture())
        .validate(&fixture())
        .unwrap_err().message();
    assert!(err.contains("store.provider is not set"), "{err}");
    assert!(
        err.contains("fixture"),
        "error should list what is available: {err}"
    );
}

#[test]
fn validate_rejects_unknown_provider() {
    let env = no_env();
    let err = StoreConfig::new("no-such-backend", &[("x", "y")])
        .validate(&fixture())
        .unwrap_err().message();
    assert!(err.contains("unknown store provider"), "{err}");
}

#[test]
fn config_assembles_with_all_defaults() {
    let env = no_env();
    let cfg = Config::from_file(None, &env, &fixture());
    // No store default: core never prefers a backend. `validate` reports
    // an unset provider; see store::tests.
    assert_eq!(cfg.store.provider, "");
    assert_eq!(cfg.embed.provider, "voyage");
    assert_eq!(cfg.embed.model, "voyage-code-3");
    assert_eq!(cfg.summarizer.provider, "anthropic");
    assert_eq!(cfg.indexer.concurrency, 8);
}

#[test]
fn env_or_uses_env_when_set() {
    let mut env = no_env();
    set_env(&mut env, "__WDPKR_TEST_ENV_OR_KEY", "42");
    let v: usize = env_or(&env, "__WDPKR_TEST_ENV_OR_KEY", 1);
    assert_eq!(v, 42);
}

#[test]
fn env_or_falls_back_when_unset() {
    let env = no_env();
    let v: usize = env_or(&env, "__WDPKR_TEST_ENV_OR_UNSET", 7);
    assert_eq!(v, 7);
}

#[test]
fn env_or_falls_back_when_unparseable() {
    let mut env = no_env();
    set_env(&mut env, "__WDPKR_TEST_ENV_OR_BAD", "not_a_number");
    let v: usize = env_or(&env, "__WDPKR_TEST_ENV_OR_BAD", 99);
    assert_eq!(v, 99);
}

#[test]
fn file_or_prefers_file_value() {
    let result: u32 = file_or(Some(50), 10);
    assert_eq!(result, 50);
}

#[test]
fn file_or_falls_back_when_none() {
    let result: u32 = file_or(None::<u32>, 10);
    assert_eq!(result, 10);
}

#[test]
fn mod_file_values_used_when_env_absent() {
    let env = no_env();
    let file = FileConfig {
        indexer: Some(FileIndexerConfig {
            concurrency: Some(32),
            ..Default::default()
        }),
        ..Default::default()
    };
    let cfg = Config::from_file(Some(file), &env, &fixture());
    assert_eq!(cfg.indexer.concurrency, 32);
}

#[test]
fn env_overrides_file_values() {
    let mut env = no_env();
    set_env(&mut env, "WDPKR_CONCURRENCY", "64");
    let file = FileConfig {
        indexer: Some(FileIndexerConfig {
            concurrency: Some(32),
            ..Default::default()
        }),
        ..Default::default()
    };
    let cfg = Config::from_file(Some(file), &env, &fixture());
    assert_eq!(cfg.indexer.concurrency, 64);
}

#[test]
fn source_default_when_no_env_no_file() {
    let env = no_env();
    let resolved = ResolvedConfig::from_file(None, &env, &fixture());
    assert_eq!(resolved.sources.indexer.concurrency, Source::Default);
    assert_eq!(resolved.sources.embed.provider, Source::Default);
}

#[test]
fn source_file_when_only_file_provides() {
    let env = no_env();
    let file = FileConfig {
        indexer: Some(FileIndexerConfig {
            concurrency: Some(24),
            ..Default::default()
        }),
        ..Default::default()
    };
    let resolved = ResolvedConfig::from_file(Some(file), &env, &fixture());
    assert_eq!(resolved.sources.indexer.concurrency, Source::File);
}

#[test]
fn source_env_when_env_overrides_file() {
    let mut env = no_env();
    set_env(&mut env, "WDPKR_CONCURRENCY", "40");
    let file = FileConfig {
        indexer: Some(FileIndexerConfig {
            concurrency: Some(24),
            ..Default::default()
        }),
        ..Default::default()
    };
    let resolved = ResolvedConfig::from_file(Some(file), &env, &fixture());
    assert_eq!(
        resolved.sources.indexer.concurrency,
        Source::Env("WDPKR_CONCURRENCY")
    );
}

#[test]
fn source_label_renders_correctly() {
    assert_eq!(Source::Default.label(), "default");
    assert_eq!(Source::File.label(), "file");
    assert_eq!(Source::Env("WDPKR_FOO").label(), "env: WDPKR_FOO");
}

#[test]
fn entries_lists_every_non_secret_field() {
    let env = no_env();
    let resolved = ResolvedConfig::from_file(None, &env, &fixture());
    let entries = resolved.entries(&fixture(), "50", "0.95");
    let keys: Vec<&str> = entries.iter().map(|e| e.key.as_str()).collect();
    for required in [
        "store.provider",
        "embedder.provider",
        "embedder.model",
        "embedder.batch_size",
        "embedder.embed_mode",
        "embedder.ollama_host",
        "summarizer.provider",
        "summarizer.model",
        "indexer.namespace",
        "indexer.default_branch",
        "indexer.concurrency",
        "indexer.max_cost",
        "indexer.hwm_success_threshold",
    ] {
        assert!(keys.contains(&required), "missing entry: {required}");
    }
    // Secrets explicitly excluded.
    assert!(!keys.iter().any(|k| k.contains("api_key")));
}

#[test]
fn entries_carry_source_for_each_field() {
    let mut env = no_env();
    set_env(&mut env, "WDPKR_EMBED_MODEL", "voyage-3-large");
    let resolved = ResolvedConfig::from_file(None, &env, &fixture());
    let model = resolved
        .entries(&fixture(), "50", "0.95")
        .into_iter()
        .find(|e| e.key == "embedder.model")
        .expect("embedder.model entry");
    assert_eq!(model.value, "voyage-3-large");
    assert_eq!(model.source, Source::Env("WDPKR_EMBED_MODEL"));
}

#[test]
fn get_returns_one_entry() {
    let env = no_env();
    let resolved = ResolvedConfig::from_file(None, &env, &fixture());
    let e = resolved.get("indexer.concurrency", &fixture(), "50", "0.95").expect("entry exists");
    assert_eq!(e.value, "8");
    assert_eq!(e.source, Source::Default);
}

#[test]
fn get_returns_none_for_unknown_key() {
    let env = no_env();
    let resolved = ResolvedConfig::from_file(None, &env, &fixture());
    assert!(resolved.get("totally.bogus.key", &fixture(), "50", "0.95").is_none());
}

#[test]
fn set_string_field() {
    let mut file = FileConfig::default();
    file.set("embedder.model", "voyage-3-large", parsed("voyage-3-large"), &fixture()).unwrap();
    assert_eq!(file.embedder.unwrap().model.unwrap(), "voyage-3-large");
}

#[test]
fn set_integer_field() {
    let mut file = FileConfig::default();
    file.set("indexer.concurrency", "32", parsed("32"), &fixture()).unwrap();
    assert_eq!(file.indexer.unwrap().concurrency, Some(32));
}

#[test]
fn set_float_field() {
    let mut file = FileConfig::default();
    file.set("indexer.hwm_success_threshold", "0.85", parsed("0.85"), &fixture()).unwrap();
    assert!((number(file.indexer.unwrap().hwm_success_threshold.unwrap()) - 0.85).abs() < f64::EPSILON);
}

#[test]
fn set_unknown_key_errors() {
    let mut file = FileConfig::default();
    let err = file.set("nope.bogus", "x", parsed("x"), &fixture()).unwrap_err();
    assert!(err.message().contains("unknown config key"));
}

#[test]
fn set_invalid_value_errors() {
    let mut file = FileConfig::default();
    let err = file.set("indexer.concurrency", "not-a-number", parsed("not-a-number"), &fixture()).unwrap_err();
    assert!(err.message().contains("indexer.concurrency"));
}

#[test]
fn set_nested_store_keys() {
    let mut file = FileConfig::default();
    file.set("store.fixture.path", "/tmp/fixture", parsed("/tmp/fixture"), &fixture()).unwrap();
    file.set("store.fixture.api_key", "fx-key", parsed("fx-key"), &fixture()).unwrap();
    let store = file.store.as_ref().unwrap();
    assert_eq!(
        store.nested("fixture", "path").as_deref(),
        Some("/tmp/fixture")
    );
    assert_eq!(
        store.nested("fixture", "api_key").as_deref(),
        Some("fx-key")
    );
}

#[test]
fn set_deprecated_flat_key_writes_nested() {
    // A deprecated flat alias writes the nested field so the file lands in
    // the canonical shape, and the alias itself is not persisted.
    let mut file = FileConfig::default();
    file.set("store.fixture_api_key", "legacy-key", parsed("legacy-key"), &fixture()).unwrap();
    let store = file.store.as_ref().unwrap();
    assert_eq!(
        store.nested("fixture", "api_key").as_deref(),
        Some("legacy-key")
    );
    assert!(store.alias("fixture_api_key").is_none());
}

#[test]
fn set_unknown_store_key_errors() {
    let mut file = FileConfig::default();
    let err = file
        .set("store.fixture.nonexistent", "x", parsed("x"), &fixture())
        .unwrap_err().message();
    assert!(err.contains("unknown config key"), "{err}");
}

#[test]
fn set_store_key_for_unregistered_backend_errors() {
    let mut file = FileConfig::default();
    let err = file.set("store.not-registered.path", "x", parsed("x"), &fixture()).unwrap_err();
    assert!(err.message().contains("unknown config key"));
}

#[test]
fn set_does_not_clobber_other_subconfigs() {
    let mut file = FileConfig::default();
    file.set("embedder.model", "voyage-3-large", parsed("voyage-3-large"), &fixture()).unwrap();
    file.set("indexer.concurrency", "16", parsed("16"), &fixture()).unwrap();
    // Both values land on the right subconfigs without overwriting each
    // other (get_or_insert_default semantics).
    assert_eq!(
        file.embedder.as_ref().unwrap().model.as_deref(),
        Some("voyage-3-large")
    );
    assert_eq!(file.indexer.as_ref().unwrap().concurrency, Some(16));
}

#[test]
fn decay_absent_is_disabled() {
    let d = DecayConfig::from_settings(&Settings::default()).unwrap();
    assert!(!d.enabled);
    assert_eq!(d.age(Some(0), 10_000_000), None);
}

#[test]
fn decay_block_present_enables_with_defaults() {
    let d = DecayConfig::from_settings(&settings("decay: {}")).unwrap();
    assert!(d.enabled);
    assert_eq!(number(d.half_life_days), 90.0);
    assert_eq!(number(d.floor), 0.4);
}

#[test]
fn decay_overrides_parse() {
    let d = DecayConfig::from_settings(&settings(
        "decay:\n  half_life_days: 30\n  floor: 0.5",
    ))
    .unwrap();
    assert!(d.enabled);
    assert_eq!(number(d.half_life_days), 30.0);
    assert_eq!(number(d.floor), 0.5);
}

#[test]
fn decay_explicit_disable() {
    let d = DecayConfig::from_settings(&settings("decay:\n  enabled: false")).unwrap();
    assert!(!d.enabled);
}

#[test]
fn decay_rejects_bad_values() {
    assert!(
        DecayConfig::from_settings(&settings("decay:\n  half_life_days: 0")).is_err()
    );
    assert!(DecayConfig::from_settings(&settings("decay:\n  floor: 1.5")).is_err());
    assert!(DecayConfig::from_settings(&settings("decay: 7")).is_err());
}

#[test]
fn tap_config_decay_helper() {
    let tap = TapConfig {
        name: "notion".into(),
        command: None,
        args: vec![],
        settings: settings("decay:\n  half_life_days: 45"),
    };
    assert_eq!(number(tap.decay().unwrap().half_life_days), 45.0);
}

#[test]
fn absent_taps_defaults_to_files() {
    let (taps, sources) = resolve(&None);
    assert_eq!(taps.len(), 1);
    assert_eq!(taps[0].name, "files");
    assert_eq!(sources.source, Source::Default);
}

#[test]
fn empty_taps_defaults_to_files() {
    let file = FileConfig {
        taps: Some(vec![]),
        ..Default::default()
    };
    let (taps, sources) = resolve(&Some(file));
    assert_eq!(taps.len(), 1);
    assert_eq!(taps[0].name, "files");
    assert_eq!(sources.source, Source::Default);
}

#[test]
fn explicit_files_tap() {
    let file = FileConfig {
        taps: Some(vec![FileTapConfig {
            name: "files".into(),
            command: None,
            args: None,
            settings: None,
        }]),
        ..Default::default()
    };
    let (taps, sources) = resolve(&Some(file));
    assert_eq!(taps.len(), 1);
    assert_eq!(taps[0].name, "files");
    assert_eq!(sources.source, Source::File);
}

#[test]
fn multiple_taps_parse() {
    let file = FileConfig {
        taps: Some(vec![
            FileTapConfig {
                name: "files".into(),
                command: None,
                args: None,
                settings: None,
            },
            FileTapConfig {
                name: "linear".into(),
                command: Some("/usr/bin/linear-tap".into()),
                args: Some(vec!["--team".into(), "ENG".into()]),
                settings: Some(settings("api_key_env: LINEAR_API_KEY")),
            },
        ]),
        ..Default::default()
    };
    let (taps, sources) = resolve(&Some(file));
    assert_eq!(taps.len(), 2);
    assert_eq!(taps[0].name, "files");
    assert_eq!(taps[1].name, "linear");
    assert_eq!(taps[1].command.as_deref(), Some("/usr/bin/linear-tap"));
    assert_eq!(taps[1].args, vec!["--team", "ENG"]);
    assert!(taps[1].settings.get("api_key_env").is_some());
    assert_eq!(sources.source, Source::File);
}

#[test]
fn every_error_of_setting_a_key_names_it() {
    let mut file = FileConfig::default();
    let err = file.set("indexer.max_cost", "lots", parsed("lots"), &fixture()).unwrap_err();
    assert!(matches!(err, ConfigError::Unreadable { .. }));
    assert!(err.message().contains("indexer.max_cost"), "{}", err.message());
    let err = file.set("store.nowhere.path", "x", None, &Vec::new()).unwrap_err();
    assert!(matches!(err, ConfigError::UnknownStoreKey { .. }));
    assert!(err.message().contains("nowhere.path"), "{}", err.message());
}

#[test]
fn a_setting_that_was_set_is_resolved() {
    let mut file = FileConfig::default();
    file.set("store.fixture.path", "/set", None, &fixture()).unwrap();
    let cfg = StoreConfig::from_env(&Some(file), &no_env(), &fixture());
    assert_eq!(cfg.get("fixture.path"), "/set");
}

#[test]
fn the_summarizer_takes_the_model_of_the_build() {
    let mut env = no_env();
    assert_eq!(SummarizerConfig::from_env(&None, &env).model, "some-model");
    set_env(&mut env, "WDPKR_SUMMARIZER_MODEL", "other-model");
    let (cfg, sources) = SummarizerConfig::resolve(&None, &env);
    assert_eq!(cfg.model, "other-model");
    assert_eq!(sources.model, Source::Env("WDPKR_SUMMARIZER_MODEL"));
    assert_eq!(sources.provider, Source::Default);
}

#[test]
fn no_backend_at_all_is_its_own_error() {
    let err = StoreConfig::new("", &[]).validate(&Vec::new()).unwrap_err().message();
    assert!(err.contains("no store backend is registered"), "{err}");
}

#[test]
fn the_chosen_backend_is_pointed_out() {
    assert_eq!(StoreConfig::new("fixture", &[]).validate(&fixture()).unwrap(), 0);
}

#[test]
fn decay_errors_tell_what_is_wrong() {
    let e = |yaml: &str| DecayConfig::from_settings(&settings(yaml)).unwrap_err();
    assert_eq!(e("decay: 7"), DecayError::NotAMapping);
    assert_eq!(e("decay:\n  enabled: 3"), DecayError::EnabledNotABoolean);
    assert_eq!(e("decay:\n  half_life_days: soon"), DecayError::HalfLifeNotANumber);
    assert_eq!(e("decay:\n  half_life_days: 0"), DecayError::HalfLifeNotPositive);
    assert_eq!(e("decay:\n  floor: low"), DecayError::FloorNotANumber);
    assert_eq!(e("decay:\n  floor: 1.5"), DecayError::FloorOutOfRange);
    assert!(e("decay:\n  floor: 1.5").message().contains("floor"));
}

#[test]
fn ages_are_never_negative() {
    let d = DecayConfig::from_settings(&settings("decay: {}")).unwrap();
    assert_eq!(d.age(Some(100), 150), Some(50));
    assert_eq!(d.age(Some(150), 100), Some(0));
    assert_eq!(d.age(None, 100), None);
}

#[test]
fn floors_from_zero_to_one_are_accepted() {
    for floor in ["0", "0.0", "1", "1.0", "0.25"] {
        let d = DecayConfig::from_settings(&settings(&format!("decay:\n  floor: {floor}"))).unwrap();
        assert_eq!(number(d.floor), floor.parse::<f64>().unwrap());
    }
    assert!(DecayConfig::from_settings(&settings("decay:\n  floor: -0.1")).is_err());
}

#[test]
fn what_is_set_is_resolved() {
    let mut file = FileConfig::default();
    for (key, value) in [
        ("store.provider", "fixture"),
        ("embedder.model", "m"),
        ("embedder.batch_size", "+7"),
        ("summarizer.model", "s"),
        ("indexer.namespace", "n"),
        ("indexer.max_cost", "1.5"),
    ] {
        file.set(key, value, parsed(value), &fixture()).unwrap();
    }
    let r = ResolvedConfig::from_file(Some(file), &no_env(), &fixture());
    let row = |key: &str| {
        let e = r.get(key, &fixture(), "1.5", "0.95").unwrap();
        (e.value, e.source)
    };
    assert_eq!(row("store.provider"), ("fixture".to_string(), Source::File));
    assert_eq!(row("embedder.model"), ("m".to_string(), Source::File));
    assert_eq!(row("embedder.batch_size"), ("7".to_string(), Source::File));
    assert_eq!(row("summarizer.model"), ("s".to_string(), Source::File));
    assert_eq!(row("indexer.namespace"), ("n".to_string(), Source::File));
    assert_eq!(number(r.config.indexer.max_cost), 1.5);
    assert_eq!(row("indexer.git_remote"), ("origin".to_string(), Source::Default));
}

#[test]
fn an_empty_store_provider_counts_as_none() {
    let mut file = FileConfig::default();
    file.set("store.provider", "", None, &fixture()).unwrap();
    let r = ResolvedConfig::from_file(Some(file), &no_env(), &fixture());
    assert_eq!(r.config.store.provider, "");
    assert_eq!(r.sources.store.provider, Source::Default);
}

#[test]
fn half_lives_must_be_above_zero() {
    let decay = |x: f64| {
        let settings = Settings {
            entries: vec![Setting {
                key: "decay".into(),
                value: Value::Table(vec![Field {
                    key: "half_life_days".into(),
                    value: Scalar::Number(Number { unsigned: None, negative: None, value: double(x) }),
                }]),
            }],
        };
        DecayConfig::from_settings(&settings)
    };
    for x in [f64::NAN, -f64::NAN, 0.0, -0.0, -1.0, f64::NEG_INFINITY] {
        assert_eq!(decay(x).unwrap_err(), DecayError::HalfLifeNotPositive);
    }
    for x in [f64::MIN_POSITIVE, 0.5, f64::INFINITY] {
        assert_eq!(number(decay(x).unwrap().half_life_days), x);
    }
}

#[test]
fn nothing_ages_while_the_time_is_unknown() {
    let d = DecayConfig::from_settings(&settings("decay: {}")).unwrap();
    assert_eq!(d.age(Some(-50), 0), None);
    assert_eq!(d.age(Some(i64::MIN), 0), None);
    assert_eq!(d.age(Some(-50), 10), Some(60));
}

#[test]
fn taps_can_be_set() {
    let mut file = FileConfig::default();
    file.set("taps", "files", None, &fixture()).unwrap();
    assert_eq!(file.taps.as_ref().unwrap().len(), 1);
    assert_eq!(file.taps.as_ref().unwrap()[0].name, "files");
    assert!(file.store.is_none() && file.embedder.is_none() && file.indexer.is_none());
    file.set("taps", " linear ,, files", None, &fixture()).unwrap();
    let r = ResolvedConfig::from_file(Some(file), &no_env(), &fixture());
    let row = r.get("taps", &fixture(), "", "").unwrap();
    assert_eq!(row.value, "linear, files");
    assert_eq!(row.source, Source::File);
}

#[test]
fn set_taps_keep_what_they_were_declared_with() {
    let mut file = FileConfig {
        taps: Some(vec![FileTapConfig {
            name: "custom".into(),
            command: Some("/bin/tap".into()),
            args: Some(vec!["--flag".into()]),
            settings: Some(settings("decay: {}")),
        }]),
        ..FileConfig::default()
    };
    file.set("taps", "files, custom", None, &fixture()).unwrap();
    let taps = file.taps.as_ref().unwrap();
    assert_eq!(taps[0].command, None);
    assert_eq!(taps[1].command.as_deref(), Some("/bin/tap"));
    assert!(taps[1].settings.is_some());
    file.set("taps", "", None, &fixture()).unwrap();
    let r = ResolvedConfig::from_file(Some(file), &no_env(), &fixture());
    assert_eq!(r.config.taps[0].name, "files");
    assert_eq!(r.sources.taps.source, Source::Default);
}

#[test]
fn every_listed_key_can_be_set() {
    let r = ResolvedConfig::from_file(None, &no_env(), &fixture());
    for row in r.entries(&fixture(), "50", "0.95") {
        let mut file = FileConfig::default();
        file.set(&row.key, "7", parsed("7"), &fixture()).unwrap();
    }
}
