//! Runtime configuration in layers: defaults, then the file, then environment
//! variables. Every resolved value remembers the layer it came from.
use vstd::prelude::*;

use crate::config::embed::{embed_of, embed_sources_of};
use crate::config::indexer::{indexer_of, indexer_sources_of};
use crate::config::store::{
    sources_get, store_of, store_sources_of, StoreBackend, StoreBackendView, SettingSpecView,
};
use crate::config::summarizer::{summarizer_of, summarizer_sources_of};
use crate::config::tap::{
    file_taps, lemma_listed_names, list_taps, listed_taps, names_in, tap_of, taps_of,
    taps_source_of,
};
use crate::config::value::{
    field_value, find_field, setting_value, Field, FieldView, Scalar, ScalarView, Setting,
    SettingView, Settings, SettingsView, Value, ValueView,
};
use crate::number::Real;
use crate::text::{
    count_value, decimal, eq_ignore_ascii_case, find_char, from_chars, has_prefix, has_suffix, join,
    joined, lemma_joined_holds, lemma_part_at_end, lemma_part_between, lowered, occurs, parse_usize,
    position, same, show_usize, strip_prefix, to_chars, without_prefix,
};
use crate::textmap::TextMap;

pub mod embed;
pub mod indexer;
pub mod store;
pub mod summarizer;
pub mod tap;
pub mod value;

pub use crate::config::embed::{EmbedConfig, EmbedConfigView, EmbedSources, EmbedSourcesView};
pub use crate::config::indexer::{
    IndexerConfig, IndexerConfigView, IndexerSources, IndexerSourcesView,
};
pub use crate::config::store::{StoreConfig, StoreConfigView, StoreSources, StoreSourcesView};
pub use crate::config::summarizer::{SummarizerConfig, SummarizerConfigView, SummarizerSources,
    SummarizerSourcesView};
pub use crate::config::tap::{
    DecayConfig, FileTapConfig, FileTapConfigView, TapConfig, TapConfigView, TapsSources,
    TapsSourcesView,
};

verus! {

/// Where a resolved value came from.
#[derive(Clone, Copy, PartialEq, Eq, Debug)]
pub enum Source {
    /// The built-in default.
    Default,
    /// The configuration file.
    File,
    /// This environment variable.
    Env(&'static str),
}

/// What a [`Source`] holds.
#[verifier::ext_equal]
pub enum SourceView {
    Default,
    File,
    Env(Seq<char>),
}

impl DeepView for Source {
    type V = SourceView;

    open spec fn deep_view(&self) -> SourceView {
        match self {
            Source::Default => SourceView::Default,
            Source::File => SourceView::File,
            Source::Env(name) => SourceView::Env(name@),
        }
    }
}

/// A source in words.
pub open spec fn label_of(s: SourceView) -> Seq<char> {
    match s {
        SourceView::Default => "default"@,
        SourceView::File => "file"@,
        SourceView::Env(name) => "env: "@ + name,
    }
}

impl Source {
    /// The source in words: `default`, `file`, or `env: KEY`.
    pub fn label(&self) -> (r: String)
        ensures
            r@ == label_of(self.deep_view()),
    {
        match self {
            Source::Default => "default".to_string(),
            Source::File => "file".to_string(),
            Source::Env(name) => {
                let mut r = "env: ".to_string();
                r.append(name);
                r
            },
        }
    }
}

/// The environment as configuration sees it: its variables, the values of the
/// two that hold fractions, where they are set and readable, and the model that
/// the build summarizes with.
#[derive(Debug)]
pub struct Env {
    pub vars: TextMap,
    /// `WDPKR_MAX_COST` as a number.
    pub max_cost: Option<Real>,
    /// `WDPKR_HWM_SUCCESS_THRESHOLD` as a number.
    pub hwm_success_threshold: Option<Real>,
    /// The summarizer's model where neither the environment nor the file names
    /// one.
    pub default_model: String,
}

/// What a [`Env`] holds.
#[verifier::ext_equal]
pub struct EnvView {
    pub vars: Map<Seq<char>, Seq<char>>,
    pub max_cost: Option<Real>,
    pub hwm_success_threshold: Option<Real>,
    pub default_model: Seq<char>,
}

impl DeepView for Env {
    type V = EnvView;

    open spec fn deep_view(&self) -> EnvView {
        EnvView {
            vars: self.vars@,
            max_cost: self.max_cost.deep_view(),
            hwm_success_threshold: self.hwm_success_threshold.deep_view(),
            default_model: self.default_model@,
        }
    }
}

impl Clone for Env {
    fn clone(&self) -> (r: Self)
        ensures
            r.deep_view() == self.deep_view(),
    {
        Env {
            vars: self.vars.clone(),
            max_cost: self.max_cost,
            hwm_success_threshold: self.hwm_success_threshold,
            default_model: self.default_model.clone(),
        }
    }
}

/// A text from the first layer that has it: environment, file, default.
pub open spec fn chosen_text(
    vars: Map<Seq<char>, Seq<char>>,
    key: Seq<char>,
    file: Option<Seq<char>>,
    default: Seq<char>,
) -> Seq<char> {
    if vars.contains_key(key) {
        vars[key]
    } else {
        match file {
            Some(v) => v,
            None => default,
        }
    }
}

/// The layer that [`chosen_text`] takes.
pub open spec fn text_source(
    vars: Map<Seq<char>, Seq<char>>,
    key: Seq<char>,
    file: Option<Seq<char>>,
) -> SourceView {
    if vars.contains_key(key) {
        SourceView::Env(key)
    } else if file is Some {
        SourceView::File
    } else {
        SourceView::Default
    }
}

/// The count a variable holds, if it is set and readable.
pub open spec fn env_count(vars: Map<Seq<char>, Seq<char>>, key: Seq<char>) -> Option<nat> {
    if vars.contains_key(key) {
        count_value(vars[key])
    } else {
        None
    }
}

/// A count from the first layer that has it; an unreadable variable is passed
/// over.
pub open spec fn chosen_count(
    vars: Map<Seq<char>, Seq<char>>,
    key: Seq<char>,
    file: Option<usize>,
    default: usize,
) -> usize {
    match env_count(vars, key) {
        Some(n) => n as usize,
        None => match file {
            Some(v) => v,
            None => default,
        },
    }
}

/// The layer that [`chosen_count`] takes.
pub open spec fn count_source(
    vars: Map<Seq<char>, Seq<char>>,
    key: Seq<char>,
    file: Option<usize>,
) -> SourceView {
    if env_count(vars, key) is Some {
        SourceView::Env(key)
    } else if file is Some {
        SourceView::File
    } else {
        SourceView::Default
    }
}

/// A fraction from the first layer that has it.
pub open spec fn chosen_number(env: Option<Real>, file: Option<Real>, default: Real) -> Real {
    match env {
        Some(v) => v,
        None => match file {
            Some(v) => v,
            None => default,
        },
    }
}

/// The layer that [`chosen_number`] takes.
pub open spec fn number_source(env: Option<Real>, key: Seq<char>, file: Option<Real>) ->
    SourceView {
    if env is Some {
        SourceView::Env(key)
    } else if file is Some {
        SourceView::File
    } else {
        SourceView::Default
    }
}

/// Resolves a text.
pub(crate) fn resolve_text(
    env: &Env,
    key: &'static str,
    file: &Option<String>,
    default: &str,
) -> (r: (String, Source))
    ensures
        r.0@ == chosen_text(env.vars@, key@, file.deep_view(), default@),
        r.1.deep_view() == text_source(env.vars@, key@, file.deep_view()),
{
    match env.vars.get(key) {
        Some(v) => (v.to_string(), Source::Env(key)),
        None => match file {
            Some(v) => (v.clone(), Source::File),
            None => (default.to_string(), Source::Default),
        },
    }
}

/// Resolves a count.
pub(crate) fn resolve_count(
    env: &Env,
    key: &'static str,
    file: Option<usize>,
    default: usize,
) -> (r: (usize, Source))
    ensures
        r.0 == chosen_count(env.vars@, key@, file, default),
        r.1.deep_view() == count_source(env.vars@, key@, file),
{
    if let Some(s) = env.vars.get(key) {
        if let Some(n) = parse_usize(s) {
            return (n, Source::Env(key));
        }
    }
    match file {
        Some(v) => (v, Source::File),
        None => (default, Source::Default),
    }
}

/// Resolves a fraction.
pub(crate) fn resolve_number(
    env: Option<Real>,
    key: &'static str,
    file: Option<Real>,
    default: Real,
) -> (r: (Real, Source))
    ensures
        r.0 == chosen_number(env, file, default),
        r.1.deep_view() == number_source(env, key@, file),
{
    match env {
        Some(v) => (v, Source::Env(key)),
        None => match file {
            Some(v) => (v, Source::File),
            None => (default, Source::Default),
        },
    }
}

/// A count from the environment, or the default where it is unset or
/// unreadable.
pub fn env_or(env: &Env, key: &'static str, default: usize) -> (r: usize)
    ensures
        r == chosen_count(env.vars@, key@, None, default),
{
    resolve_count(env, key, None, default).0
}

/// The file's value, or the default where it has none.
pub fn file_or<T>(file_val: Option<T>, default: T) -> (r: T)
    ensures
        r == match file_val {
            Some(v) => v,
            None => default,
        },
{
    match file_val {
        Some(v) => v,
        None => default,
    }
}

// ---------------------------------------------------------------------------
// The file
// ---------------------------------------------------------------------------

/// The `store` block of a file: the provider, and whatever else stands there,
/// blocks of backends or deprecated flat keys, kept as it is.
#[derive(Debug)]
pub struct FileStoreConfig {
    pub provider: Option<String>,
    pub backends: Settings,
}

/// What a [`FileStoreConfig`] holds.
#[verifier::ext_equal]
pub struct FileStoreConfigView {
    pub provider: Option<Seq<char>>,
    pub backends: SettingsView,
}

impl DeepView for FileStoreConfig {
    type V = FileStoreConfigView;

    open spec fn deep_view(&self) -> FileStoreConfigView {
        FileStoreConfigView {
            provider: self.provider.deep_view(),
            backends: self.backends.deep_view(),
        }
    }
}

impl Clone for FileStoreConfig {
    fn clone(&self) -> (r: Self)
        ensures
            r.deep_view() == self.deep_view(),
    {
        FileStoreConfig {
            provider: self.provider.clone(),
            backends: self.backends.clone(),
        }
    }
}

/// The `embedder` block of a file.
#[derive(Debug)]
pub struct FileEmbedConfig {
    pub provider: Option<String>,
    pub model: Option<String>,
    pub batch_size: Option<usize>,
    pub embed_mode: Option<String>,
    pub ollama_host: Option<String>,
    pub voyage_api_key: Option<String>,
    pub openai_api_key: Option<String>,
}

/// What a [`FileEmbedConfig`] holds.
#[verifier::ext_equal]
pub struct FileEmbedConfigView {
    pub provider: Option<Seq<char>>,
    pub model: Option<Seq<char>>,
    pub batch_size: Option<usize>,
    pub embed_mode: Option<Seq<char>>,
    pub ollama_host: Option<Seq<char>>,
    pub voyage_api_key: Option<Seq<char>>,
    pub openai_api_key: Option<Seq<char>>,
}

impl DeepView for FileEmbedConfig {
    type V = FileEmbedConfigView;

    open spec fn deep_view(&self) -> FileEmbedConfigView {
        FileEmbedConfigView {
            provider: self.provider.deep_view(),
            model: self.model.deep_view(),
            batch_size: self.batch_size.deep_view(),
            embed_mode: self.embed_mode.deep_view(),
            ollama_host: self.ollama_host.deep_view(),
            voyage_api_key: self.voyage_api_key.deep_view(),
            openai_api_key: self.openai_api_key.deep_view(),
        }
    }
}

impl Clone for FileEmbedConfig {
    fn clone(&self) -> (r: Self)
        ensures
            r.deep_view() == self.deep_view(),
    {
        FileEmbedConfig {
            provider: self.provider.clone(),
            model: self.model.clone(),
            batch_size: self.batch_size,
            embed_mode: self.embed_mode.clone(),
            ollama_host: self.ollama_host.clone(),
            voyage_api_key: self.voyage_api_key.clone(),
            openai_api_key: self.openai_api_key.clone(),
        }
    }
}

/// The `summarizer` block of a file.
#[derive(Debug)]
pub struct FileSummarizerConfig {
    pub provider: Option<String>,
    pub model: Option<String>,
    pub anthropic_api_key: Option<String>,
}

/// What a [`FileSummarizerConfig`] holds.
#[verifier::ext_equal]
pub struct FileSummarizerConfigView {
    pub provider: Option<Seq<char>>,
    pub model: Option<Seq<char>>,
    pub anthropic_api_key: Option<Seq<char>>,
}

impl DeepView for FileSummarizerConfig {
    type V = FileSummarizerConfigView;

    open spec fn deep_view(&self) -> FileSummarizerConfigView {
        FileSummarizerConfigView {
            provider: self.provider.deep_view(),
            model: self.model.deep_view(),
            anthropic_api_key: self.anthropic_api_key.deep_view(),
        }
    }
}

impl Clone for FileSummarizerConfig {
    fn clone(&self) -> (r: Self)
        ensures
            r.deep_view() == self.deep_view(),
    {
        FileSummarizerConfig {
            provider: self.provider.clone(),
            model: self.model.clone(),
            anthropic_api_key: self.anthropic_api_key.clone(),
        }
    }
}

/// The `indexer` block of a file.
#[derive(Debug)]
pub struct FileIndexerConfig {
    pub namespace: Option<String>,
    pub default_branch: Option<String>,
    pub git_remote: Option<String>,
    pub concurrency: Option<usize>,
    pub max_cost: Option<Real>,
    pub hwm_success_threshold: Option<Real>,
}

/// What a [`FileIndexerConfig`] holds.
#[verifier::ext_equal]
pub struct FileIndexerConfigView {
    pub namespace: Option<Seq<char>>,
    pub default_branch: Option<Seq<char>>,
    pub git_remote: Option<Seq<char>>,
    pub concurrency: Option<usize>,
    pub max_cost: Option<Real>,
    pub hwm_success_threshold: Option<Real>,
}

impl DeepView for FileIndexerConfig {
    type V = FileIndexerConfigView;

    open spec fn deep_view(&self) -> FileIndexerConfigView {
        FileIndexerConfigView {
            namespace: self.namespace.deep_view(),
            default_branch: self.default_branch.deep_view(),
            git_remote: self.git_remote.deep_view(),
            concurrency: self.concurrency.deep_view(),
            max_cost: self.max_cost.deep_view(),
            hwm_success_threshold: self.hwm_success_threshold.deep_view(),
        }
    }
}

impl Clone for FileIndexerConfig {
    fn clone(&self) -> (r: Self)
        ensures
            r.deep_view() == self.deep_view(),
    {
        FileIndexerConfig {
            namespace: self.namespace.clone(),
            default_branch: self.default_branch.clone(),
            git_remote: self.git_remote.clone(),
            concurrency: self.concurrency,
            max_cost: self.max_cost,
            hwm_success_threshold: self.hwm_success_threshold,
        }
    }
}

/// A configuration file. Every part may be missing.
#[derive(Debug)]
pub struct FileConfig {
    pub store: Option<FileStoreConfig>,
    pub embedder: Option<FileEmbedConfig>,
    pub summarizer: Option<FileSummarizerConfig>,
    pub indexer: Option<FileIndexerConfig>,
    pub taps: Option<Vec<FileTapConfig>>,
}

/// What a [`FileConfig`] holds.
#[verifier::ext_equal]
pub struct FileConfigView {
    pub store: Option<FileStoreConfigView>,
    pub embedder: Option<FileEmbedConfigView>,
    pub summarizer: Option<FileSummarizerConfigView>,
    pub indexer: Option<FileIndexerConfigView>,
    pub taps: Option<Seq<FileTapConfigView>>,
}

impl DeepView for FileConfig {
    type V = FileConfigView;

    open spec fn deep_view(&self) -> FileConfigView {
        FileConfigView {
            store: self.store.deep_view(),
            embedder: self.embedder.deep_view(),
            summarizer: self.summarizer.deep_view(),
            indexer: self.indexer.deep_view(),
            taps: self.taps.deep_view(),
        }
    }
}

impl Clone for FileConfig {
    fn clone(&self) -> (r: Self)
        ensures
            r.deep_view() == self.deep_view(),
    {
        FileConfig {
            store: self.store.clone(),
            embedder: self.embedder.clone(),
            summarizer: self.summarizer.clone(),
            indexer: self.indexer.clone(),
            taps: self.taps.clone(),
        }
    }
}

/// An empty block.
pub open spec fn empty_store_block() -> FileStoreConfigView {
    FileStoreConfigView {
        provider: None,
        backends: SettingsView { entries: Seq::<SettingView>::empty() },
    }
}

impl Default for FileStoreConfig {
    fn default() -> (r: FileStoreConfig)
        ensures
            r.deep_view() == empty_store_block(),
    {
        let r = FileStoreConfig {
            provider: None,
            backends: Settings::default(),
        };
        assert(r.deep_view() =~= empty_store_block());
        r
    }
}

/// An empty block.
pub open spec fn empty_embed_block() -> FileEmbedConfigView {
    FileEmbedConfigView {
        provider: None,
        model: None,
        batch_size: None,
        embed_mode: None,
        ollama_host: None,
        voyage_api_key: None,
        openai_api_key: None,
    }
}

impl Default for FileEmbedConfig {
    fn default() -> (r: FileEmbedConfig)
        ensures
            r.deep_view() == empty_embed_block(),
    {
        let r = FileEmbedConfig {
            provider: None,
            model: None,
            batch_size: None,
            embed_mode: None,
            ollama_host: None,
            voyage_api_key: None,
            openai_api_key: None,
        };
        assert(r.deep_view() =~= empty_embed_block());
        r
    }
}

/// An empty block.
pub open spec fn empty_summarizer_block() -> FileSummarizerConfigView {
    FileSummarizerConfigView {
        provider: None,
        model: None,
        anthropic_api_key: None,
    }
}

impl Default for FileSummarizerConfig {
    fn default() -> (r: FileSummarizerConfig)
        ensures
            r.deep_view() == empty_summarizer_block(),
    {
        let r = FileSummarizerConfig {
            provider: None,
            model: None,
            anthropic_api_key: None,
        };
        assert(r.deep_view() =~= empty_summarizer_block());
        r
    }
}

/// An empty block.
pub open spec fn empty_indexer_block() -> FileIndexerConfigView {
    FileIndexerConfigView {
        namespace: None,
        default_branch: None,
        git_remote: None,
        concurrency: None,
        max_cost: None,
        hwm_success_threshold: None,
    }
}

impl Default for FileIndexerConfig {
    fn default() -> (r: FileIndexerConfig)
        ensures
            r.deep_view() == empty_indexer_block(),
    {
        let r = FileIndexerConfig {
            namespace: None,
            default_branch: None,
            git_remote: None,
            concurrency: None,
            max_cost: None,
            hwm_success_threshold: None,
        };
        assert(r.deep_view() =~= empty_indexer_block());
        r
    }
}

/// An empty block.
pub open spec fn empty_file() -> FileConfigView {
    FileConfigView {
        store: None,
        embedder: None,
        summarizer: None,
        indexer: None,
        taps: None,
    }
}

impl Default for FileConfig {
    fn default() -> (r: FileConfig)
        ensures
            r.deep_view() == empty_file(),
    {
        let r = FileConfig {
            store: None,
            embedder: None,
            summarizer: None,
            indexer: None,
            taps: None,
        };
        assert(r.deep_view() =~= empty_file());
        r
    }
}


/// The text of the first field of that name, where it is a text.
pub open spec fn field_text(t: Seq<FieldView>, key: Seq<char>) -> Option<Seq<char>> {
    match field_value(t, key) {
        Some(ScalarView::Text(s)) => Some(s),
        _ => None,
    }
}

/// What a store block says under `backend.key`.
pub open spec fn nested_of(
    s: Seq<SettingView>,
    backend: Seq<char>,
    key: Seq<char>,
) -> Option<Seq<char>> {
    match setting_value(s, backend) {
        Some(ValueView::Table(t)) => field_text(t, key),
        _ => None,
    }
}

/// What a store block says under a flat key.
pub open spec fn alias_of(s: Seq<SettingView>, alias: Seq<char>) -> Option<Seq<char>> {
    match setting_value(s, alias) {
        Some(ValueView::One(ScalarView::Text(t))) => Some(t),
        _ => None,
    }
}

/// A table with a field set: in place of the first one of its name, or at the
/// end.
pub open spec fn with_field(t: Seq<FieldView>, key: Seq<char>, value: ScalarView) -> Seq<FieldView>
    decreases t.len(),
{
    if t.len() == 0 {
        seq![FieldView { key, value }]
    } else if t[0].key == key {
        seq![FieldView { key, value }] + t.drop_first()
    } else {
        seq![t[0]] + with_field(t.drop_first(), key, value)
    }
}

/// Settings with one set: in place of the first one of its name, or at the end.
pub open spec fn with_setting(s: Seq<SettingView>, key: Seq<char>, value: ValueView) -> Seq<
    SettingView,
>
    decreases s.len(),
{
    if s.len() == 0 {
        seq![SettingView { key, value }]
    } else if s[0].key == key {
        seq![SettingView { key, value }] + s.drop_first()
    } else {
        seq![s[0]] + with_setting(s.drop_first(), key, value)
    }
}

/// The fields of a backend's block: none where it has no block.
pub open spec fn block_of(s: Seq<SettingView>, backend: Seq<char>) -> Seq<FieldView> {
    match setting_value(s, backend) {
        Some(ValueView::Table(t)) => t,
        _ => Seq::<FieldView>::empty(),
    }
}

/// A store block with `backend.key` set to a text.
pub open spec fn with_nested(
    s: Seq<SettingView>,
    backend: Seq<char>,
    key: Seq<char>,
    value: Seq<char>,
) -> Seq<SettingView> {
    with_setting(
        s,
        backend,
        ValueView::Table(with_field(block_of(s, backend), key, ScalarView::Text(value))),
    )
}

fn set_field(t: &Vec<Field>, key: &str, value: &str) -> (r: Vec<Field>)
    ensures
        r.deep_view() == with_field(t.deep_view(), key@, ScalarView::Text(value@)),
{
    let ghost tv = t.deep_view();
    let ghost v = ScalarView::Text(value@);
    let mut out: Vec<Field> = Vec::new();
    let mut i: usize = 0;
    proof {
        assert(tv.skip(0) =~= tv);
        assert(out.deep_view() + with_field(tv, key@, v) =~= with_field(tv, key@, v));
    }
    let mut done = false;
    while i < t.len()
        invariant
            i <= t@.len(),
            tv == t.deep_view(),
            v == ScalarView::Text(value@),
            with_field(tv, key@, v) == out.deep_view() + if done {
                tv.skip(i as int)
            } else {
                with_field(tv.skip(i as int), key@, v)
            },
        decreases t@.len() - i,
    {
        let ghost before = out.deep_view();
        proof {
            assert(tv.skip(i as int)[0] == t@[i as int].deep_view());
            assert(tv.skip(i as int).drop_first() =~= tv.skip(i + 1));
            assert(tv.skip(i as int) =~= seq![tv[i as int]] + tv.skip(i + 1));
        }
        let f = if !done && same(t[i].key.as_str(), key) {
            done = true;
            Field { key: key.to_string(), value: Scalar::Text(value.to_string()) }
        } else {
            t[i].clone()
        };
        let ghost fv = f.deep_view();
        out.push(f);
        proof {
            let rest = if done {
                tv.skip(i + 1)
            } else {
                with_field(tv.skip(i + 1), key@, v)
            };
            assert(out.deep_view() =~= before.push(fv));
            assert(before + (seq![fv] + rest) =~= before.push(fv) + rest);
        }
        i += 1;
    }
    assert(tv.skip(i as int) =~= Seq::<FieldView>::empty());
    if !done {
        let ghost before = out.deep_view();
        let f = Field { key: key.to_string(), value: Scalar::Text(value.to_string()) };
        let ghost fv = f.deep_view();
        out.push(f);
        assert(out.deep_view() =~= before + seq![fv]);
    } else {
        assert(out.deep_view() + Seq::<FieldView>::empty() =~= out.deep_view());
    }
    out
}

fn set_setting(s: &Vec<Setting>, key: &str, value: Value) -> (r: Vec<Setting>)
    ensures
        r.deep_view() == with_setting(s.deep_view(), key@, value.deep_view()),
{
    let ghost sv = s.deep_view();
    let ghost v = value.deep_view();
    let mut out: Vec<Setting> = Vec::new();
    let mut i: usize = 0;
    proof {
        assert(sv.skip(0) =~= sv);
        assert(out.deep_view() + with_setting(sv, key@, v) =~= with_setting(sv, key@, v));
    }
    let mut done = false;
    while i < s.len()
        invariant
            i <= s@.len(),
            sv == s.deep_view(),
            v == value.deep_view(),
            with_setting(sv, key@, v) == out.deep_view() + if done {
                sv.skip(i as int)
            } else {
                with_setting(sv.skip(i as int), key@, v)
            },
        decreases s@.len() - i,
    {
        let ghost before = out.deep_view();
        proof {
            assert(sv.skip(i as int)[0] == s@[i as int].deep_view());
            assert(sv.skip(i as int).drop_first() =~= sv.skip(i + 1));
            assert(sv.skip(i as int) =~= seq![sv[i as int]] + sv.skip(i + 1));
        }
        let f = if !done && same(s[i].key.as_str(), key) {
            done = true;
            Setting { key: key.to_string(), value: value.clone() }
        } else {
            s[i].clone()
        };
        let ghost fv = f.deep_view();
        out.push(f);
        proof {
            let rest = if done {
                sv.skip(i + 1)
            } else {
                with_setting(sv.skip(i + 1), key@, v)
            };
            assert(out.deep_view() =~= before.push(fv));
            assert(before + (seq![fv] + rest) =~= before.push(fv) + rest);
        }
        i += 1;
    }
    assert(sv.skip(i as int) =~= Seq::<SettingView>::empty());
    if !done {
        let ghost before = out.deep_view();
        let f = Setting { key: key.to_string(), value };
        let ghost fv = f.deep_view();
        out.push(f);
        assert(out.deep_view() =~= before + seq![fv]);
    } else {
        assert(out.deep_view() + Seq::<SettingView>::empty() =~= out.deep_view());
    }
    out
}

impl FileStoreConfig {
    /// What stands under `backend.key`, where it is a text.
    pub fn nested(&self, backend: &str, key: &str) -> (r: Option<String>)
        ensures
            r.deep_view() == nested_of(self.backends.deep_view().entries, backend@, key@),
    {
        match self.backends.get(backend) {
            Some(Value::Table(t)) => match find_field(t, key) {
                Some(Scalar::Text(s)) => Some(s.clone()),
                _ => None,
            },
            _ => None,
        }
    }

    /// What stands under a flat key, where it is a text.
    pub fn alias(&self, alias: &str) -> (r: Option<String>)
        ensures
            r.deep_view() == alias_of(self.backends.deep_view().entries, alias@),
    {
        match self.backends.get(alias) {
            Some(Value::One(Scalar::Text(s))) => Some(s.clone()),
            _ => None,
        }
    }

    /// Sets `backend.key`, making the block as needed. Never writes a flat key.
    pub fn set_nested(&mut self, backend: &str, key: &str, value: &str)
        ensures
            final(self).deep_view() == (FileStoreConfigView {
                provider: old(self).deep_view().provider,
                backends: SettingsView {
                    entries: with_nested(
                        old(self).backends.deep_view().entries,
                        backend@,
                        key@,
                        value@,
                    ),
                },
            }),
    {
        let fields = match self.backends.get(backend) {
            Some(Value::Table(t)) => set_field(t, key, value),
            _ => {
                let none: Vec<Field> = Vec::new();
                assert(none.deep_view() =~= Seq::<FieldView>::empty());
                set_field(&none, key, value)
            },
        };
        let entries = set_setting(&self.backends.entries, backend, Value::Table(fields));
        self.backends = Settings { entries };
    }
}

/// Why a key cannot be set.
#[derive(Debug)]
pub enum ConfigError {
    /// The value does not parse as the field's type.
    Unreadable { key: String, value: String, wanted: &'static str },
    /// There is no such key.
    UnknownKey { key: String },
    /// There is no such key, and no backend is registered that could have it.
    UnknownStoreKey { key: String },
}

/// What a [`ConfigError`] holds.
#[verifier::ext_equal]
pub enum ConfigErrorView {
    Unreadable { key: Seq<char>, value: Seq<char>, wanted: Seq<char> },
    UnknownKey { key: Seq<char> },
    UnknownStoreKey { key: Seq<char> },
}

impl DeepView for ConfigError {
    type V = ConfigErrorView;

    open spec fn deep_view(&self) -> ConfigErrorView {
        match self {
            ConfigError::Unreadable { key, value, wanted } => ConfigErrorView::Unreadable {
                key: key@,
                value: value@,
                wanted: wanted@,
            },
            ConfigError::UnknownKey { key } => ConfigErrorView::UnknownKey { key: key@ },
            ConfigError::UnknownStoreKey { key } => ConfigErrorView::UnknownStoreKey { key: key@ },
        }
    }
}

/// An error in words.
pub open spec fn config_error_words(e: ConfigErrorView) -> Seq<char> {
    match e {
        ConfigErrorView::Unreadable { key, value, wanted } => key + ": cannot parse '"@ + value
            + "' as "@ + wanted,
        ConfigErrorView::UnknownKey { key } => "unknown config key: "@ + key,
        ConfigErrorView::UnknownStoreKey { key } => "unknown config key: "@ + key
            + " (no store backends are registered, so no backend settings are known)"@,
    }
}

impl ConfigError {
    /// The error as text.
    pub fn message(&self) -> (r: String)
        ensures
            r@ == config_error_words(self.deep_view()),
    {
        match self {
            ConfigError::Unreadable { key, value, wanted } => {
                let mut r = key.clone();
                r.append(": cannot parse '");
                r.append(value.as_str());
                r.append("' as ");
                r.append(wanted);
                r
            },
            ConfigError::UnknownKey { key } => {
                let mut r = "unknown config key: ".to_string();
                r.append(key.as_str());
                r
            },
            ConfigError::UnknownStoreKey { key } => {
                let mut r = "unknown config key: ".to_string();
                r.append(key.as_str());
                r.append(" (no store backends are registered, so no backend settings are known)");
                r
            },
        }
    }
}

/// The file's `store` block, or an empty one.
pub open spec fn store_or_empty(c: FileConfigView) -> FileStoreConfigView {
    match c.store {
        Some(b) => b,
        None => empty_store_block(),
    }
}

/// The file's `embedder` block, or an empty one.
pub open spec fn embedder_or_empty(c: FileConfigView) -> FileEmbedConfigView {
    match c.embedder {
        Some(b) => b,
        None => empty_embed_block(),
    }
}

/// The file's `summarizer` block, or an empty one.
pub open spec fn summarizer_or_empty(c: FileConfigView) -> FileSummarizerConfigView {
    match c.summarizer {
        Some(b) => b,
        None => empty_summarizer_block(),
    }
}

/// The file's `indexer` block, or an empty one.
pub open spec fn indexer_or_empty(c: FileConfigView) -> FileIndexerConfigView {
    match c.indexer {
        Some(b) => b,
        None => empty_indexer_block(),
    }
}

/// A backend's setting that a key after `store.` names.
#[verifier::ext_equal]
pub struct StoreKeyView {
    pub backend: Seq<char>,
    pub key: Seq<char>,
}

/// Whether a backend declares a setting of that key.
pub open spec fn declares(b: StoreBackendView, key: Seq<char>) -> bool {
    exists|i: int| 0 <= i < b.settings.len() && (#[trigger] b.settings[i]).key == key
}

/// The first backend of that name, whatever its case, that declares that key.
pub open spec fn canonical_key(
    backends: Seq<StoreBackendView>,
    name: Seq<char>,
    key: Seq<char>,
) -> Option<StoreKeyView>
    decreases backends.len(),
{
    if backends.len() == 0 {
        None
    } else if lowered(backends[0].name) == lowered(name) && declares(backends[0], key) {
        Some(StoreKeyView { backend: backends[0].name, key })
    } else {
        canonical_key(backends.drop_first(), name, key)
    }
}

/// The first of a backend's settings that still answers to a flat key.
pub open spec fn aliased_setting(settings: Seq<SettingSpecView>, alias: Seq<char>) -> Option<
    Seq<char>,
>
    decreases settings.len(),
{
    if settings.len() == 0 {
        None
    } else if settings[0].file_aliases.contains(alias) {
        Some(settings[0].key)
    } else {
        aliased_setting(settings.drop_first(), alias)
    }
}

/// The first setting of any backend that still answers to a flat key.
pub open spec fn aliased_key(backends: Seq<StoreBackendView>, alias: Seq<char>) -> Option<
    StoreKeyView,
>
    decreases backends.len(),
{
    if backends.len() == 0 {
        None
    } else {
        match aliased_setting(backends[0].settings, alias) {
            Some(key) => Some(StoreKeyView { backend: backends[0].name, key }),
            None => aliased_key(backends.drop_first(), alias),
        }
    }
}

/// The setting that the part of a key after `store.` names: `backend.key`, or a
/// deprecated flat key.
pub open spec fn store_key(backends: Seq<StoreBackendView>, rest: Seq<char>) -> Option<
    StoreKeyView,
> {
    match position(rest, '.') {
        Some(i) => canonical_key(backends, rest.take(i), rest.skip(i + 1)),
        None => aliased_key(backends, rest),
    }
}

/// A file with one key set. `number` is the value as a fraction, where it is one.
pub open spec fn file_with(
    c: FileConfigView,
    key: Seq<char>,
    value: Seq<char>,
    number: Option<Real>,
    backends: Seq<StoreBackendView>,
) -> Result<FileConfigView, ConfigErrorView> {
    if key == "store.provider"@ {
        Ok(
            FileConfigView {
                store: Some(FileStoreConfigView { provider: Some(value), ..store_or_empty(c) }),
                ..c
            },
        )
    } else if key == "embedder.provider"@ {
        Ok(
            FileConfigView {
                embedder: Some(
                    FileEmbedConfigView { provider: Some(value), ..embedder_or_empty(c) },
                ),
                ..c
            },
        )
    } else if key == "embedder.model"@ {
        Ok(
            FileConfigView {
                embedder: Some(FileEmbedConfigView { model: Some(value), ..embedder_or_empty(c) }),
                ..c
            },
        )
    } else if key == "embedder.embed_mode"@ {
        Ok(
            FileConfigView {
                embedder: Some(
                    FileEmbedConfigView { embed_mode: Some(value), ..embedder_or_empty(c) },
                ),
                ..c
            },
        )
    } else if key == "embedder.batch_size"@ {
        match count_value(value) {
            Some(n) => Ok(
                FileConfigView {
                    embedder: Some(
                        FileEmbedConfigView {
                            batch_size: Some(n as usize),
                            ..embedder_or_empty(c)
                        },
                    ),
                    ..c
                },
            ),
            None => Err(ConfigErrorView::Unreadable { key, value, wanted: "usize"@ }),
        }
    } else if key == "embedder.ollama_host"@ {
        Ok(
            FileConfigView {
                embedder: Some(
                    FileEmbedConfigView { ollama_host: Some(value), ..embedder_or_empty(c) },
                ),
                ..c
            },
        )
    } else if key == "embedder.voyage_api_key"@ {
        Ok(
            FileConfigView {
                embedder: Some(
                    FileEmbedConfigView { voyage_api_key: Some(value), ..embedder_or_empty(c) },
                ),
                ..c
            },
        )
    } else if key == "embedder.openai_api_key"@ {
        Ok(
            FileConfigView {
                embedder: Some(
                    FileEmbedConfigView { openai_api_key: Some(value), ..embedder_or_empty(c) },
                ),
                ..c
            },
        )
    } else if key == "summarizer.provider"@ {
        Ok(
            FileConfigView {
                summarizer: Some(
                    FileSummarizerConfigView { provider: Some(value), ..summarizer_or_empty(c) },
                ),
                ..c
            },
        )
    } else if key == "summarizer.model"@ {
        Ok(
            FileConfigView {
                summarizer: Some(
                    FileSummarizerConfigView { model: Some(value), ..summarizer_or_empty(c) },
                ),
                ..c
            },
        )
    } else if key == "summarizer.anthropic_api_key"@ {
        Ok(
            FileConfigView {
                summarizer: Some(
                    FileSummarizerConfigView {
                        anthropic_api_key: Some(value),
                        ..summarizer_or_empty(c)
                    },
                ),
                ..c
            },
        )
    } else if key == "indexer.namespace"@ {
        Ok(
            FileConfigView {
                indexer: Some(
                    FileIndexerConfigView { namespace: Some(value), ..indexer_or_empty(c) },
                ),
                ..c
            },
        )
    } else if key == "indexer.default_branch"@ {
        Ok(
            FileConfigView {
                indexer: Some(
                    FileIndexerConfigView { default_branch: Some(value), ..indexer_or_empty(c) },
                ),
                ..c
            },
        )
    } else if key == "indexer.git_remote"@ {
        Ok(
            FileConfigView {
                indexer: Some(
                    FileIndexerConfigView { git_remote: Some(value), ..indexer_or_empty(c) },
                ),
                ..c
            },
        )
    } else if key == "indexer.concurrency"@ {
        match count_value(value) {
            Some(n) => Ok(
                FileConfigView {
                    indexer: Some(
                        FileIndexerConfigView {
                            concurrency: Some(n as usize),
                            ..indexer_or_empty(c)
                        },
                    ),
                    ..c
                },
            ),
            None => Err(ConfigErrorView::Unreadable { key, value, wanted: "usize"@ }),
        }
    } else if key == "indexer.max_cost"@ {
        match number {
            Some(n) => Ok(
                FileConfigView {
                    indexer: Some(
                        FileIndexerConfigView { max_cost: Some(n), ..indexer_or_empty(c) },
                    ),
                    ..c
                },
            ),
            None => Err(ConfigErrorView::Unreadable { key, value, wanted: "f64"@ }),
        }
    } else if key == "indexer.hwm_success_threshold"@ {
        match number {
            Some(n) => Ok(
                FileConfigView {
                    indexer: Some(
                        FileIndexerConfigView {
                            hwm_success_threshold: Some(n),
                            ..indexer_or_empty(c)
                        },
                    ),
                    ..c
                },
            ),
            None => Err(ConfigErrorView::Unreadable { key, value, wanted: "f64"@ }),
        }
    } else if key == "taps"@ {
        Ok(FileConfigView { taps: Some(listed_taps(c.taps, value)), ..c })
    } else if let Some(rest) = without_prefix(key, "store."@) {
        match store_key(backends, rest) {
            Some(k) => Ok(
                FileConfigView {
                    store: Some(
                        FileStoreConfigView {
                            backends: SettingsView {
                                entries: with_nested(
                                    store_or_empty(c).backends.entries,
                                    k.backend,
                                    k.key,
                                    value,
                                ),
                            },
                            ..store_or_empty(c)
                        },
                    ),
                    ..c
                },
            ),
            None => if backends.len() == 0 {
                Err(ConfigErrorView::UnknownStoreKey { key: "store."@ + rest })
            } else {
                Err(ConfigErrorView::UnknownKey { key: "store."@ + rest })
            },
        }
    } else {
        Err(ConfigErrorView::UnknownKey { key })
    }
}

fn has_key(b: &StoreBackend, key: &str) -> (r: bool)
    ensures
        r == declares(b.deep_view(), key@),
{
    let ghost bv = b.deep_view();
    let mut i: usize = 0;
    while i < b.settings.len()
        invariant
            i <= b.settings@.len(),
            bv == b.deep_view(),
            forall|j: int| 0 <= j < i ==> (#[trigger] bv.settings[j]).key != key@,
        decreases b.settings@.len() - i,
    {
        assert(bv.settings[i as int] == b.settings@[i as int].deep_view());
        if same(b.settings[i].key, key) {
            return true;
        }
        i += 1;
    }
    false
}

fn find_canonical(backends: &Vec<StoreBackend>, name: &str, key: &str) -> (r: Option<usize>)
    ensures
        match r {
            Some(i) => i < backends@.len() && canonical_key(backends.deep_view(), name@, key@)
                == Some(StoreKeyView { backend: backends@[i as int].name@, key: key@ }),
            None => canonical_key(backends.deep_view(), name@, key@) is None,
        },
{
    let ghost bv = backends.deep_view();
    let mut i: usize = 0;
    assert(bv.skip(0) =~= bv);
    while i < backends.len()
        invariant
            i <= backends@.len(),
            bv == backends.deep_view(),
            canonical_key(bv, name@, key@) == canonical_key(bv.skip(i as int), name@, key@),
        decreases backends@.len() - i,
    {
        proof {
            assert(bv.skip(i as int)[0] == backends@[i as int].deep_view());
            assert(bv.skip(i as int).drop_first() =~= bv.skip(i + 1));
        }
        if eq_ignore_ascii_case(backends[i].name.as_str(), name) && has_key(&backends[i], key) {
            return Some(i);
        }
        i += 1;
    }
    None
}

fn find_alias_setting(b: &StoreBackend, alias: &str) -> (r: Option<&'static str>)
    ensures
        r.deep_view() == aliased_setting(b.deep_view().settings, alias@),
{
    let ghost sv = b.settings.deep_view();
    let mut i: usize = 0;
    assert(sv.skip(0) =~= sv);
    while i < b.settings.len()
        invariant
            i <= b.settings@.len(),
            sv == b.settings.deep_view(),
            aliased_setting(sv, alias@) == aliased_setting(sv.skip(i as int), alias@),
        decreases b.settings@.len() - i,
    {
        proof {
            assert(sv.skip(i as int)[0] == b.settings@[i as int].deep_view());
            assert(sv.skip(i as int).drop_first() =~= sv.skip(i + 1));
        }
        if crate::chunk::languages::has_kind(&b.settings[i].file_aliases, alias) {
            return Some(b.settings[i].key);
        }
        i += 1;
    }
    None
}

impl FileConfig {
    /// Sets one field by its dotted key. The keys are those of
    /// [`ResolvedConfig::entries`], and those of the secrets. `number` is the
    /// value as a fraction, where it is one; only the two fractional fields look
    /// at it.
    pub fn set(
        &mut self,
        key: &str,
        value: &str,
        number: Option<Real>,
        backends: &Vec<StoreBackend>,
    ) -> (r: Result<(), ConfigError>)
        ensures
            match r {
                Ok(_) => file_with(
                    old(self).deep_view(),
                    key@,
                    value@,
                    number,
                    backends.deep_view(),
                ) == Ok::<FileConfigView, ConfigErrorView>(final(self).deep_view()),
                Err(e) => file_with(
                    old(self).deep_view(),
                    key@,
                    value@,
                    number,
                    backends.deep_view(),
                ) == Err::<FileConfigView, ConfigErrorView>(e.deep_view())
                    && final(self).deep_view() == old(self).deep_view(),
            },
    {
        if same(key, "store.provider") {
            let mut b = self.store_block();
            b.provider = Some(value.to_string());
            self.store = Some(b);
        } else if same(key, "embedder.provider") {
            let mut b = self.embedder_block();
            b.provider = Some(value.to_string());
            self.embedder = Some(b);
        } else if same(key, "embedder.model") {
            let mut b = self.embedder_block();
            b.model = Some(value.to_string());
            self.embedder = Some(b);
        } else if same(key, "embedder.embed_mode") {
            let mut b = self.embedder_block();
            b.embed_mode = Some(value.to_string());
            self.embedder = Some(b);
        } else if same(key, "embedder.batch_size") {
            let n: usize = match parse_usize(value) {
                Some(n) => n,
                None => {
                    return Err(unreadable(key, value, "usize"));
                },
            };
            let mut b = self.embedder_block();
            b.batch_size = Some(n);
            self.embedder = Some(b);
        } else if same(key, "embedder.ollama_host") {
            let mut b = self.embedder_block();
            b.ollama_host = Some(value.to_string());
            self.embedder = Some(b);
        } else if same(key, "embedder.voyage_api_key") {
            let mut b = self.embedder_block();
            b.voyage_api_key = Some(value.to_string());
            self.embedder = Some(b);
        } else if same(key, "embedder.openai_api_key") {
            let mut b = self.embedder_block();
            b.openai_api_key = Some(value.to_string());
            self.embedder = Some(b);
        } else if same(key, "summarizer.provider") {
            let mut b = self.summarizer_block();
            b.provider = Some(value.to_string());
            self.summarizer = Some(b);
        } else if same(key, "summarizer.model") {
            let mut b = self.summarizer_block();
            b.model = Some(value.to_string());
            self.summarizer = Some(b);
        } else if same(key, "summarizer.anthropic_api_key") {
            let mut b = self.summarizer_block();
            b.anthropic_api_key = Some(value.to_string());
            self.summarizer = Some(b);
        } else if same(key, "indexer.namespace") {
            let mut b = self.indexer_block();
            b.namespace = Some(value.to_string());
            self.indexer = Some(b);
        } else if same(key, "indexer.default_branch") {
            let mut b = self.indexer_block();
            b.default_branch = Some(value.to_string());
            self.indexer = Some(b);
        } else if same(key, "indexer.git_remote") {
            let mut b = self.indexer_block();
            b.git_remote = Some(value.to_string());
            self.indexer = Some(b);
        } else if same(key, "indexer.concurrency") {
            let n: usize = match parse_usize(value) {
                Some(n) => n,
                None => {
                    return Err(unreadable(key, value, "usize"));
                },
            };
            let mut b = self.indexer_block();
            b.concurrency = Some(n);
            self.indexer = Some(b);
        } else if same(key, "indexer.max_cost") {
            let n = match number {
                Some(n) => n,
                None => {
                    return Err(unreadable(key, value, "f64"));
                },
            };
            let mut b = self.indexer_block();
            b.max_cost = Some(n);
            self.indexer = Some(b);
        } else if same(key, "indexer.hwm_success_threshold") {
            let n = match number {
                Some(n) => n,
                None => {
                    return Err(unreadable(key, value, "f64"));
                },
            };
            let mut b = self.indexer_block();
            b.hwm_success_threshold = Some(n);
            self.indexer = Some(b);
        } else if same(key, "taps") {
            self.taps = Some(list_taps(&self.taps, value));
        } else {
            return match strip_prefix(key, "store.") {
                Some(rest) => self.set_store_setting(rest.as_str(), value, backends),
                None => Err(ConfigError::UnknownKey { key: key.to_string() }),
            };
        }
        Ok(())
    }

    fn store_block(&self) -> (r: FileStoreConfig)
        ensures
            r.deep_view() == store_or_empty(self.deep_view()),
    {
        match &self.store {
            Some(b) => b.clone(),
            None => FileStoreConfig::default(),
        }
    }

    fn embedder_block(&self) -> (r: FileEmbedConfig)
        ensures
            r.deep_view() == embedder_or_empty(self.deep_view()),
    {
        match &self.embedder {
            Some(b) => b.clone(),
            None => FileEmbedConfig::default(),
        }
    }

    fn summarizer_block(&self) -> (r: FileSummarizerConfig)
        ensures
            r.deep_view() == summarizer_or_empty(self.deep_view()),
    {
        match &self.summarizer {
            Some(b) => b.clone(),
            None => FileSummarizerConfig::default(),
        }
    }

    fn indexer_block(&self) -> (r: FileIndexerConfig)
        ensures
            r.deep_view() == indexer_or_empty(self.deep_view()),
    {
        match &self.indexer {
            Some(b) => b.clone(),
            None => FileIndexerConfig::default(),
        }
    }

    /// Sets a backend's setting, given the part of the key after `store.`: the
    /// canonical `backend.key`, or a deprecated flat key. Either way the
    /// canonical place is written.
    pub fn set_store_setting(
        &mut self,
        rest: &str,
        value: &str,
        backends: &Vec<StoreBackend>,
    ) -> (r: Result<(), ConfigError>)
        ensures
            match r {
                Ok(_) => ({
                    let k = store_key(backends.deep_view(), rest@)->0;
                    &&& store_key(backends.deep_view(), rest@) is Some
                    &&& final(self).deep_view() == (FileConfigView {
                        store: Some(
                            FileStoreConfigView {
                                backends: SettingsView {
                                    entries: with_nested(
                                        store_or_empty(old(self).deep_view()).backends.entries,
                                        k.backend,
                                        k.key,
                                        value@,
                                    ),
                                },
                                ..store_or_empty(old(self).deep_view())
                            },
                        ),
                        ..old(self).deep_view()
                    })
                }),
                Err(e) => store_key(backends.deep_view(), rest@) is None && final(self).deep_view()
                    == old(self).deep_view() && e.deep_view() == if backends@.len() == 0 {
                    ConfigErrorView::UnknownStoreKey { key: "store."@ + rest@ }
                } else {
                    ConfigErrorView::UnknownKey { key: "store."@ + rest@ }
                },
            },
    {
        let ghost bv = backends.deep_view();
        let v = to_chars(rest);
        let n: usize = v.len();
        match find_char(v.as_slice(), '.') {
            Some(i) => {
                let name = from_chars(v.as_slice(), 0, i);
                let key = from_chars(v.as_slice(), i + 1, n);
                proof {
                    assert(name@ =~= rest@.take(i as int));
                    assert(key@ =~= rest@.skip(i + 1));
                }
                if let Some(p) = find_canonical(backends, name.as_str(), key.as_str()) {
                    let mut b = self.store_block();
                    b.set_nested(backends[p].name.as_str(), key.as_str(), value);
                    self.store = Some(b);
                    return Ok(());
                }
            },
            None => {
                let mut i: usize = 0;
                assert(bv.skip(0) =~= bv);
                while i < backends.len()
                    invariant
                        i <= backends@.len(),
                        bv == backends.deep_view(),
                        position(rest@, '.') is None,
                        self.deep_view() == old(self).deep_view(),
                        aliased_key(bv, rest@) == aliased_key(bv.skip(i as int), rest@),
                    decreases backends@.len() - i,
                {
                    proof {
                        assert(bv.skip(i as int)[0] == backends@[i as int].deep_view());
                        assert(bv.skip(i as int).drop_first() =~= bv.skip(i + 1));
                    }
                    if let Some(key) = find_alias_setting(&backends[i], rest) {
                        let mut b = self.store_block();
                        b.set_nested(backends[i].name.as_str(), key, value);
                        self.store = Some(b);
                        return Ok(());
                    }
                    i += 1;
                }
            },
        }
        let mut key = "store.".to_string();
        key.append(rest);
        if backends.len() == 0 {
            Err(ConfigError::UnknownStoreKey { key })
        } else {
            Err(ConfigError::UnknownKey { key })
        }
    }
}

fn unreadable(key: &str, value: &str, wanted: &'static str) -> (r: ConfigError)
    ensures
        r.deep_view() == (
            ConfigErrorView::Unreadable { key: key@, value: value@, wanted: wanted@ }
        ),
{
    ConfigError::Unreadable { key: key.to_string(), value: value.to_string(), wanted }
}

// ---------------------------------------------------------------------------
// Everything together
// ---------------------------------------------------------------------------

/// All resolved values.
#[derive(Debug)]
pub struct Config {
    pub store: StoreConfig,
    pub embed: EmbedConfig,
    pub summarizer: SummarizerConfig,
    pub indexer: IndexerConfig,
    pub taps: Vec<TapConfig>,
}

/// What a [`Config`] holds.
#[verifier::ext_equal]
pub struct ConfigView {
    pub store: StoreConfigView,
    pub embed: EmbedConfigView,
    pub summarizer: SummarizerConfigView,
    pub indexer: IndexerConfigView,
    pub taps: Seq<TapConfigView>,
}

impl DeepView for Config {
    type V = ConfigView;

    open spec fn deep_view(&self) -> ConfigView {
        ConfigView {
            store: self.store.deep_view(),
            embed: self.embed.deep_view(),
            summarizer: self.summarizer.deep_view(),
            indexer: self.indexer.deep_view(),
            taps: self.taps.deep_view(),
        }
    }
}

impl Clone for Config {
    fn clone(&self) -> (r: Self)
        ensures
            r.deep_view() == self.deep_view(),
    {
        Config {
            store: self.store.clone(),
            embed: self.embed.clone(),
            summarizer: self.summarizer.clone(),
            indexer: self.indexer.clone(),
            taps: self.taps.clone(),
        }
    }
}

/// Where each of the values came from.
#[derive(Debug)]
pub struct ConfigSources {
    pub store: StoreSources,
    pub embed: EmbedSources,
    pub summarizer: SummarizerSources,
    pub indexer: IndexerSources,
    pub taps: TapsSources,
}

/// What a [`ConfigSources`] holds.
#[verifier::ext_equal]
pub struct ConfigSourcesView {
    pub store: StoreSourcesView,
    pub embed: EmbedSourcesView,
    pub summarizer: SummarizerSourcesView,
    pub indexer: IndexerSourcesView,
    pub taps: TapsSourcesView,
}

impl DeepView for ConfigSources {
    type V = ConfigSourcesView;

    open spec fn deep_view(&self) -> ConfigSourcesView {
        ConfigSourcesView {
            store: self.store.deep_view(),
            embed: self.embed.deep_view(),
            summarizer: self.summarizer.deep_view(),
            indexer: self.indexer.deep_view(),
            taps: self.taps.deep_view(),
        }
    }
}

impl Clone for ConfigSources {
    fn clone(&self) -> (r: Self)
        ensures
            r.deep_view() == self.deep_view(),
    {
        ConfigSources {
            store: self.store.clone(),
            embed: self.embed.clone(),
            summarizer: self.summarizer.clone(),
            indexer: self.indexer.clone(),
            taps: self.taps.clone(),
        }
    }
}

/// Values and their sources.
#[derive(Debug)]
pub struct ResolvedConfig {
    pub config: Config,
    pub sources: ConfigSources,
}

/// What a [`ResolvedConfig`] holds.
#[verifier::ext_equal]
pub struct ResolvedConfigView {
    pub config: ConfigView,
    pub sources: ConfigSourcesView,
}

impl DeepView for ResolvedConfig {
    type V = ResolvedConfigView;

    open spec fn deep_view(&self) -> ResolvedConfigView {
        ResolvedConfigView {
            config: self.config.deep_view(),
            sources: self.sources.deep_view(),
        }
    }
}

impl Clone for ResolvedConfig {
    fn clone(&self) -> (r: Self)
        ensures
            r.deep_view() == self.deep_view(),
    {
        ResolvedConfig {
            config: self.config.clone(),
            sources: self.sources.clone(),
        }
    }
}

/// One row of a configuration listing.
#[derive(Debug)]
pub struct ConfigEntry {
    pub key: String,
    pub value: String,
    pub source: Source,
}

/// What a [`ConfigEntry`] holds.
#[verifier::ext_equal]
pub struct ConfigEntryView {
    pub key: Seq<char>,
    pub value: Seq<char>,
    pub source: SourceView,
}

impl DeepView for ConfigEntry {
    type V = ConfigEntryView;

    open spec fn deep_view(&self) -> ConfigEntryView {
        ConfigEntryView {
            key: self.key@,
            value: self.value@,
            source: self.source.deep_view(),
        }
    }
}

impl Clone for ConfigEntry {
    fn clone(&self) -> (r: Self)
        ensures
            r.deep_view() == self.deep_view(),
    {
        ConfigEntry {
            key: self.key.clone(),
            value: self.value.clone(),
            source: self.source.clone(),
        }
    }
}

/// The resolved configuration of a file, an environment and the registered
/// backends.
pub open spec fn resolved_of(
    file: Option<FileConfigView>,
    env: EnvView,
    backends: Seq<StoreBackendView>,
) -> ResolvedConfigView {
    ResolvedConfigView {
        config: ConfigView {
            store: store_of(file, env, backends),
            embed: embed_of(file, env),
            summarizer: summarizer_of(file, env),
            indexer: indexer_of(file, env),
            taps: taps_of(file),
        },
        sources: ConfigSourcesView {
            store: store_sources_of(file, env, backends),
            embed: embed_sources_of(file, env),
            summarizer: summarizer_sources_of(file, env),
            indexer: indexer_sources_of(file, env),
            taps: TapsSourcesView { source: taps_source_of(file) },
        },
    }
}

/// The name of a backend's setting: `backend.key`.
pub open spec fn full_key(backend: Seq<char>, key: Seq<char>) -> Seq<char> {
    backend + "."@ + key
}

/// The rows of a backend's settings; secrets are withheld.
pub open spec fn setting_rows(
    r: ResolvedConfigView,
    backend: Seq<char>,
    settings: Seq<SettingSpecView>,
) -> Seq<ConfigEntryView>
    decreases settings.len(),
{
    if settings.len() == 0 {
        Seq::<ConfigEntryView>::empty()
    } else {
        let head = setting_rows(r, backend, settings.drop_last());
        let s = settings.last();
        if s.secret {
            head
        } else {
            let lookup = full_key(backend, s.key);
            head.push(
                ConfigEntryView {
                    key: "store."@ + lookup,
                    value: if r.config.store.settings.contains_key(lookup) {
                        r.config.store.settings[lookup]
                    } else {
                        ""@
                    },
                    source: match sources_get(r.sources.store.settings, lookup) {
                        Some(src) => src,
                        None => SourceView::Default,
                    },
                },
            )
        }
    }
}

/// The rows of all backends' settings.
pub open spec fn backend_rows(r: ResolvedConfigView, backends: Seq<StoreBackendView>) -> Seq<
    ConfigEntryView,
>
    decreases backends.len(),
{
    if backends.len() == 0 {
        Seq::<ConfigEntryView>::empty()
    } else {
        backend_rows(r, backends.drop_last()) + setting_rows(
            r,
            backends.last().name,
            backends.last().settings,
        )
    }
}

/// The names of the taps.
pub open spec fn tap_names(taps: Seq<TapConfigView>) -> Seq<Seq<char>> {
    taps.map_values(|t: TapConfigView| t.name)
}

/// The first row of a listing.
pub open spec fn first_row(r: ResolvedConfigView) -> ConfigEntryView {
    ConfigEntryView {
        key: "store.provider"@,
        value: r.config.store.provider,
        source: r.sources.store.provider,
    }
}

/// The rows behind the backends' in a listing. The two fractions are given as
/// texts.
pub open spec fn other_rows(
    r: ResolvedConfigView,
    max_cost: Seq<char>,
    hwm_success_threshold: Seq<char>,
) -> Seq<ConfigEntryView> {
    let c = r.config;
    let s = r.sources;
    seq![
        ConfigEntryView {
            key: "embedder.provider"@,
            value: c.embed.provider,
            source: s.embed.provider,
        },
        ConfigEntryView { key: "embedder.model"@, value: c.embed.model, source: s.embed.model },
        ConfigEntryView {
            key: "embedder.batch_size"@,
            value: decimal(c.embed.batch_size as nat),
            source: s.embed.batch_size,
        },
        ConfigEntryView {
            key: "embedder.embed_mode"@,
            value: c.embed.embed_mode,
            source: s.embed.embed_mode,
        },
        ConfigEntryView {
            key: "embedder.ollama_host"@,
            value: c.embed.ollama_host,
            source: s.embed.ollama_host,
        },
        ConfigEntryView {
            key: "summarizer.provider"@,
            value: c.summarizer.provider,
            source: s.summarizer.provider,
        },
        ConfigEntryView {
            key: "summarizer.model"@,
            value: c.summarizer.model,
            source: s.summarizer.model,
        },
        ConfigEntryView {
            key: "indexer.namespace"@,
            value: c.indexer.namespace,
            source: s.indexer.namespace,
        },
        ConfigEntryView {
            key: "indexer.default_branch"@,
            value: c.indexer.default_branch,
            source: s.indexer.default_branch,
        },
        ConfigEntryView {
            key: "indexer.git_remote"@,
            value: c.indexer.git_remote,
            source: s.indexer.git_remote,
        },
        ConfigEntryView {
            key: "indexer.concurrency"@,
            value: decimal(c.indexer.concurrency as nat),
            source: s.indexer.concurrency,
        },
        ConfigEntryView { key: "indexer.max_cost"@, value: max_cost, source: s.indexer.max_cost },
        ConfigEntryView {
            key: "indexer.hwm_success_threshold"@,
            value: hwm_success_threshold,
            source: s.indexer.hwm_success_threshold,
        },
        ConfigEntryView {
            key: "taps"@,
            value: joined(tap_names(c.taps), ", "@),
            source: s.taps.source,
        },
    ]
}

/// Every non-secret field with its value and source.
pub open spec fn rows_of(
    r: ResolvedConfigView,
    backends: Seq<StoreBackendView>,
    max_cost: Seq<char>,
    hwm_success_threshold: Seq<char>,
) -> Seq<ConfigEntryView> {
    seq![first_row(r)] + backend_rows(r, backends) + other_rows(r, max_cost, hwm_success_threshold)
}

/// The first row of that key.
pub open spec fn row_of(rows: Seq<ConfigEntryView>, key: Seq<char>) -> Option<ConfigEntryView>
    decreases rows.len(),
{
    if rows.len() == 0 {
        None
    } else if rows[0].key == key {
        Some(rows[0])
    } else {
        row_of(rows.drop_first(), key)
    }
}

fn entry(key: &str, value: &str, source: Source) -> (r: ConfigEntry)
    ensures
        r.deep_view() == (ConfigEntryView {
            key: key@,
            value: value@,
            source: source.deep_view(),
        }),
{
    ConfigEntry { key: key.to_string(), value: value.to_string(), source }
}

impl Config {
    /// The values of a file, an environment and the registered backends.
    pub fn from_file(file: Option<FileConfig>, env: &Env, backends: &Vec<StoreBackend>) -> (r:
        Config)
        ensures
            r.deep_view() == resolved_of(
                file.deep_view(),
                env.deep_view(),
                backends.deep_view(),
            ).config,
    {
        ResolvedConfig::from_file(file, env, backends).config
    }
}

impl ResolvedConfig {
    /// Resolves all layers, remembering the source of every field.
    pub fn from_file(file: Option<FileConfig>, env: &Env, backends: &Vec<StoreBackend>) -> (r:
        ResolvedConfig)
        ensures
            r.deep_view() == resolved_of(
                file.deep_view(),
                env.deep_view(),
                backends.deep_view(),
            ),
    {
        let (store, store_sources) = StoreConfig::resolve(&file, env, backends);
        let (embed, embed_sources) = EmbedConfig::resolve(&file, env);
        let (summarizer, summarizer_sources) = SummarizerConfig::resolve(&file, env);
        let (indexer, indexer_sources) = IndexerConfig::resolve(&file, env);
        let (taps, taps_sources) = tap::resolve(&file);
        ResolvedConfig {
            config: Config { store, embed, summarizer, indexer, taps },
            sources: ConfigSources {
                store: store_sources,
                embed: embed_sources,
                summarizer: summarizer_sources,
                indexer: indexer_sources,
                taps: taps_sources,
            },
        }
    }

    fn push_setting_rows(&self, b: &StoreBackend, out: &mut Vec<ConfigEntry>)
        ensures
            final(out).deep_view() == old(out).deep_view() + setting_rows(
                self.deep_view(),
                b.name@,
                b.deep_view().settings,
            ),
    {
        let ghost rv = self.deep_view();
        let ghost sv = b.settings.deep_view();
        let ghost start = out.deep_view();
        let mut i: usize = 0;
        assert(start + setting_rows(rv, b.name@, sv.take(0)) =~= start);
        while i < b.settings.len()
            invariant
                i <= b.settings@.len(),
                rv == self.deep_view(),
                sv == b.settings.deep_view(),
                out.deep_view() == start + setting_rows(rv, b.name@, sv.take(i as int)),
            decreases b.settings@.len() - i,
        {
            let spec_ = &b.settings[i];
            proof {
                assert(sv.take(i + 1).drop_last() =~= sv.take(i as int));
                assert(sv.take(i + 1).last() == spec_.deep_view());
            }
            if !spec_.secret {
                let ghost before = out.deep_view();
                let mut lookup = b.name.clone();
                lookup.append(".");
                lookup.append(spec_.key);
                let mut key = "store.".to_string();
                key.append(lookup.as_str());
                let source = match self.sources.store.get(lookup.as_str()) {
                    Some(s) => *s,
                    None => Source::Default,
                };
                let e = entry(
                    key.as_str(),
                    self.config.store.get(lookup.as_str()),
                    source,
                );
                let ghost ev = e.deep_view();
                out.push(e);
                proof {
                    assert(out.deep_view() =~= before.push(ev));
                    assert(out.deep_view() =~= start + setting_rows(rv, b.name@, sv.take(i + 1)));
                }
            }
            i += 1;
        }
        assert(sv.take(i as int) =~= sv);
    }

    /// Every non-secret field with its value and source. The two fractions are
    /// given as texts.
    pub fn entries(
        &self,
        backends: &Vec<StoreBackend>,
        max_cost: &str,
        hwm_success_threshold: &str,
    ) -> (r: Vec<ConfigEntry>)
        ensures
            r.deep_view() == rows_of(
                self.deep_view(),
                backends.deep_view(),
                max_cost@,
                hwm_success_threshold@,
            ),
    {
        let ghost rv = self.deep_view();
        let ghost bv = backends.deep_view();
        let c = &self.config;
        let s = &self.sources;
        let mut out: Vec<ConfigEntry> = Vec::new();
        out.push(entry("store.provider", c.store.provider.as_str(), s.store.provider));
        let ghost start = seq![first_row(rv)];
        let mut i: usize = 0;
        proof {
            assert(out.deep_view() =~= start);
            assert(start + backend_rows(rv, bv.take(0)) =~= start);
        }
        while i < backends.len()
            invariant
                i <= backends@.len(),
                rv == self.deep_view(),
                bv == backends.deep_view(),
                out.deep_view() == start + backend_rows(rv, bv.take(i as int)),
            decreases backends@.len() - i,
        {
            let ghost before = out.deep_view();
            self.push_setting_rows(&backends[i], &mut out);
            proof {
                assert(bv.take(i + 1).drop_last() =~= bv.take(i as int));
                assert(bv.take(i + 1).last() == backends@[i as int].deep_view());
                assert(out.deep_view() =~= start + backend_rows(rv, bv.take(i + 1)));
            }
            i += 1;
        }
        assert(bv.take(i as int) =~= bv);
        let ghost middle = out.deep_view();
        let mut names: Vec<String> = Vec::new();
        let ghost want = tap_names(rv.config.taps);
        let mut k: usize = 0;
        assert(names.deep_view() =~= want.take(0));
        while k < c.taps.len()
            invariant
                k <= c.taps@.len(),
                want == tap_names(c.taps.deep_view()),
                names.deep_view() == want.take(k as int),
            decreases c.taps@.len() - k,
        {
            let ghost before = names.deep_view();
            let n = c.taps[k].name.clone();
            let ghost nv = n@;
            names.push(n);
            proof {
                assert(want[k as int] == nv);
                assert(names.deep_view() =~= before.push(nv));
                assert(want.take(k + 1) =~= want.take(k as int).push(want[k as int]));
            }
            k += 1;
        }
        assert(want.take(k as int) =~= want);
        let taps = join(&names, ", ");
        let batch_size = show_usize(c.embed.batch_size);
        let concurrency = show_usize(c.indexer.concurrency);
        out.push(entry("embedder.provider", c.embed.provider.as_str(), s.embed.provider));
        out.push(entry("embedder.model", c.embed.model.as_str(), s.embed.model));
        out.push(entry("embedder.batch_size", batch_size.as_str(), s.embed.batch_size));
        out.push(entry("embedder.embed_mode", c.embed.embed_mode.as_str(), s.embed.embed_mode));
        out.push(entry("embedder.ollama_host", c.embed.ollama_host.as_str(), s.embed.ollama_host));
        out.push(
            entry("summarizer.provider", c.summarizer.provider.as_str(), s.summarizer.provider),
        );
        out.push(entry("summarizer.model", c.summarizer.model.as_str(), s.summarizer.model));
        out.push(entry("indexer.namespace", c.indexer.namespace.as_str(), s.indexer.namespace));
        out.push(
            entry(
                "indexer.default_branch",
                c.indexer.default_branch.as_str(),
                s.indexer.default_branch,
            ),
        );
        out.push(entry("indexer.git_remote", c.indexer.git_remote.as_str(), s.indexer.git_remote));
        out.push(entry("indexer.concurrency", concurrency.as_str(), s.indexer.concurrency));
        out.push(entry("indexer.max_cost", max_cost, s.indexer.max_cost));
        out.push(
            entry(
                "indexer.hwm_success_threshold",
                hwm_success_threshold,
                s.indexer.hwm_success_threshold,
            ),
        );
        out.push(entry("taps", taps.as_str(), s.taps.source));
        assert(out.deep_view() =~= middle + other_rows(rv, max_cost@, hwm_success_threshold@));
        out
    }

    /// One row by its dotted key.
    pub fn get(
        &self,
        key: &str,
        backends: &Vec<StoreBackend>,
        max_cost: &str,
        hwm_success_threshold: &str,
    ) -> (r: Option<ConfigEntry>)
        ensures
            r.deep_view() == row_of(
                rows_of(self.deep_view(), backends.deep_view(), max_cost@, hwm_success_threshold@),
                key@,
            ),
    {
        let rows = self.entries(backends, max_cost, hwm_success_threshold);
        let ghost rv = rows.deep_view();
        let mut i: usize = 0;
        assert(rv.skip(0) =~= rv);
        while i < rows.len()
            invariant
                i <= rows@.len(),
                rv == rows.deep_view(),
                rv == rows_of(
                    self.deep_view(),
                    backends.deep_view(),
                    max_cost@,
                    hwm_success_threshold@,
                ),
                row_of(rv, key@) == row_of(rv.skip(i as int), key@),
            decreases rows@.len() - i,
        {
            proof {
                assert(rv.skip(i as int)[0] == rows@[i as int].deep_view());
                assert(rv.skip(i as int).drop_first() =~= rv.skip(i + 1));
            }
            if same(rows[i].key.as_str(), key) {
                return Some(rows[i].clone());
            }
            i += 1;
        }
        None
    }
}

// ---------------------------------------------------------------------------
// Laws
// ---------------------------------------------------------------------------

/// The environment beats the file and the file beats the default, and the
/// recorded source is the layer that won.
pub proof fn law_layers_of_texts(
    vars: Map<Seq<char>, Seq<char>>,
    key: Seq<char>,
    file: Option<Seq<char>>,
    default: Seq<char>,
)
    ensures
        match text_source(vars, key, file) {
            SourceView::Env(k) => k == key && vars.contains_key(key) && chosen_text(
                vars,
                key,
                file,
                default,
            ) == vars[key],
            SourceView::File => !vars.contains_key(key) && file == Some(
                chosen_text(vars, key, file, default),
            ),
            SourceView::Default => !vars.contains_key(key) && file is None && chosen_text(
                vars,
                key,
                file,
                default,
            ) == default,
        },
{
}

/// The same for counts; an unreadable variable counts as unset.
pub proof fn law_layers_of_counts(
    vars: Map<Seq<char>, Seq<char>>,
    key: Seq<char>,
    file: Option<usize>,
    default: usize,
)
    ensures
        match count_source(vars, key, file) {
            SourceView::Env(k) => k == key && vars.contains_key(key) && count_value(vars[key])
                == Some(chosen_count(vars, key, file, default) as nat),
            SourceView::File => env_count(vars, key) is None && file == Some(
                chosen_count(vars, key, file, default),
            ),
            SourceView::Default => env_count(vars, key) is None && file is None && chosen_count(
                vars,
                key,
                file,
                default,
            ) == default,
        },
{
}

proof fn lemma_with_setting(s: Seq<SettingView>, key: Seq<char>, value: ValueView, other: Seq<char>)
    ensures
        setting_value(with_setting(s, key, value), key) == Some(value),
        other != key ==> setting_value(with_setting(s, key, value), other) == setting_value(
            s,
            other,
        ),
    decreases s.len(),
{
    let w = with_setting(s, key, value);
    if s.len() == 0 {
        assert(w.drop_first() =~= Seq::<SettingView>::empty());
        assert(setting_value(w.drop_first(), other) is None);
    } else if s[0].key == key {
        assert(w.drop_first() =~= s.drop_first());
    } else {
        lemma_with_setting(s.drop_first(), key, value, other);
        assert(w.drop_first() =~= with_setting(s.drop_first(), key, value));
    }
}

proof fn lemma_with_field(t: Seq<FieldView>, key: Seq<char>, value: ScalarView, other: Seq<char>)
    ensures
        field_value(with_field(t, key, value), key) == Some(value),
        other != key ==> field_value(with_field(t, key, value), other) == field_value(t, other),
    decreases t.len(),
{
    let w = with_field(t, key, value);
    if t.len() == 0 {
        assert(w.drop_first() =~= Seq::<FieldView>::empty());
        assert(field_value(w.drop_first(), other) is None);
    } else if t[0].key == key {
        assert(w.drop_first() =~= t.drop_first());
    } else {
        lemma_with_field(t.drop_first(), key, value, other);
        assert(w.drop_first() =~= with_field(t.drop_first(), key, value));
    }
}

/// What is set under `backend.key` is read back there, and nothing else in the
/// store block changes: no other key of the backend, no other backend, no flat
/// key of another name.
pub proof fn law_nested_settings_read_back(
    s: Seq<SettingView>,
    backend: Seq<char>,
    key: Seq<char>,
    value: Seq<char>,
    other_backend: Seq<char>,
    other_key: Seq<char>,
)
    ensures
        nested_of(with_nested(s, backend, key, value), backend, key) == Some(value),
        other_backend != backend || other_key != key ==> nested_of(
            with_nested(s, backend, key, value),
            other_backend,
            other_key,
        ) == nested_of(s, other_backend, other_key),
        other_backend != backend ==> setting_value(
            with_nested(s, backend, key, value),
            other_backend,
        ) == setting_value(s, other_backend),
{
    let fields = with_field(block_of(s, backend), key, ScalarView::Text(value));
    lemma_with_setting(s, backend, ValueView::Table(fields), other_backend);
    lemma_with_field(block_of(s, backend), key, ScalarView::Text(value), other_key);
}

/// Setting a key never touches a block other than its own; a refused key changes
/// nothing at all.
pub proof fn law_set_touches_one_block(
    c: FileConfigView,
    key: Seq<char>,
    value: Seq<char>,
    number: Option<Real>,
    backends: Seq<StoreBackendView>,
)
    ensures
        file_with(c, key, value, number, backends) matches Ok(d) ==> ({
            &&& key != "taps"@ ==> d.taps == c.taps
            &&& !has_prefix(key, "store."@) ==> d.store == c.store
            &&& !has_prefix(key, "embedder."@) ==> d.embedder == c.embedder
            &&& !has_prefix(key, "summarizer."@) ==> d.summarizer == c.summarizer
            &&& !has_prefix(key, "indexer."@) ==> d.indexer == c.indexer
        }),
{
    reveal_strlit("store.");
    reveal_strlit("embedder.");
    reveal_strlit("summarizer.");
    reveal_strlit("indexer.");
    reveal_strlit("store.provider");
    assert("store.provider"@.take(6) =~= "store."@);
    reveal_strlit("embedder.provider");
    assert("embedder.provider"@.take(9) =~= "embedder."@);
    reveal_strlit("embedder.model");
    assert("embedder.model"@.take(9) =~= "embedder."@);
    reveal_strlit("embedder.embed_mode");
    assert("embedder.embed_mode"@.take(9) =~= "embedder."@);
    reveal_strlit("embedder.batch_size");
    assert("embedder.batch_size"@.take(9) =~= "embedder."@);
    reveal_strlit("embedder.ollama_host");
    assert("embedder.ollama_host"@.take(9) =~= "embedder."@);
    reveal_strlit("embedder.voyage_api_key");
    assert("embedder.voyage_api_key"@.take(9) =~= "embedder."@);
    reveal_strlit("embedder.openai_api_key");
    assert("embedder.openai_api_key"@.take(9) =~= "embedder."@);
    reveal_strlit("summarizer.provider");
    assert("summarizer.provider"@.take(11) =~= "summarizer."@);
    reveal_strlit("summarizer.model");
    assert("summarizer.model"@.take(11) =~= "summarizer."@);
    reveal_strlit("summarizer.anthropic_api_key");
    assert("summarizer.anthropic_api_key"@.take(11) =~= "summarizer."@);
    reveal_strlit("indexer.namespace");
    assert("indexer.namespace"@.take(8) =~= "indexer."@);
    reveal_strlit("indexer.default_branch");
    assert("indexer.default_branch"@.take(8) =~= "indexer."@);
    reveal_strlit("indexer.git_remote");
    assert("indexer.git_remote"@.take(8) =~= "indexer."@);
    reveal_strlit("indexer.concurrency");
    assert("indexer.concurrency"@.take(8) =~= "indexer."@);
    reveal_strlit("indexer.max_cost");
    assert("indexer.max_cost"@.take(8) =~= "indexer."@);
    reveal_strlit("indexer.hwm_success_threshold");
    assert("indexer.hwm_success_threshold"@.take(8) =~= "indexer."@);
}

/// The text a setting resolves to, the variable that can set it, and the layer
/// it comes from: none for keys of other settings.
pub open spec fn text_setting(r: ResolvedConfigView, key: Seq<char>) -> Option<
    (Seq<char>, Seq<char>, SourceView),
> {
    if key == "store.provider"@ {
        Some((r.config.store.provider, "WDPKR_STORE_PROVIDER"@, r.sources.store.provider))
    } else if key == "embedder.provider"@ {
        Some((r.config.embed.provider, "WDPKR_EMBED_PROVIDER"@, r.sources.embed.provider))
    } else if key == "embedder.model"@ {
        Some((r.config.embed.model, "WDPKR_EMBED_MODEL"@, r.sources.embed.model))
    } else if key == "embedder.embed_mode"@ {
        Some((r.config.embed.embed_mode, "WDPKR_EMBED_MODE"@, r.sources.embed.embed_mode))
    } else if key == "embedder.ollama_host"@ {
        Some((r.config.embed.ollama_host, "OLLAMA_HOST"@, r.sources.embed.ollama_host))
    } else if key == "embedder.voyage_api_key"@ {
        Some((r.config.embed.voyage_api_key, "VOYAGE_API_KEY"@, r.sources.embed.voyage_api_key))
    } else if key == "embedder.openai_api_key"@ {
        Some((r.config.embed.openai_api_key, "OPENAI_API_KEY"@, r.sources.embed.openai_api_key))
    } else if key == "summarizer.provider"@ {
        Some(
            (r.config.summarizer.provider, "WDPKR_SUMMARIZER_PROVIDER"@, r.sources.summarizer.provider),
        )
    } else if key == "summarizer.model"@ {
        Some((r.config.summarizer.model, "WDPKR_SUMMARIZER_MODEL"@, r.sources.summarizer.model))
    } else if key == "summarizer.anthropic_api_key"@ {
        Some((r.config.summarizer.api_key, "ANTHROPIC_API_KEY"@, r.sources.summarizer.api_key))
    } else if key == "indexer.namespace"@ {
        Some((r.config.indexer.namespace, "WDPKR_NAMESPACE"@, r.sources.indexer.namespace))
    } else if key == "indexer.default_branch"@ {
        Some(
            (r.config.indexer.default_branch, "WDPKR_DEFAULT_BRANCH"@, r.sources.indexer.default_branch),
        )
    } else if key == "indexer.git_remote"@ {
        Some((r.config.indexer.git_remote, "WDPKR_GIT_REMOTE"@, r.sources.indexer.git_remote))
    } else {
        None
    }
}

/// The same for counts.
pub open spec fn count_setting(r: ResolvedConfigView, key: Seq<char>) -> Option<
    (usize, Seq<char>, SourceView),
> {
    if key == "embedder.batch_size"@ {
        Some((r.config.embed.batch_size, "WDPKR_EMBED_BATCH_SIZE"@, r.sources.embed.batch_size))
    } else if key == "indexer.concurrency"@ {
        Some((r.config.indexer.concurrency, "WDPKR_CONCURRENCY"@, r.sources.indexer.concurrency))
    } else {
        None
    }
}

/// What is set in the file is what the configuration resolves to, and the file
/// is its source, unless the environment has a say in it. An empty store
/// provider and an empty list of taps count as none.
pub proof fn law_what_is_set_is_resolved(
    c: FileConfigView,
    key: Seq<char>,
    value: Seq<char>,
    number: Option<Real>,
    backends: Seq<StoreBackendView>,
    env: EnvView,
)
    requires
        file_with(c, key, value, number, backends) is Ok,
    ensures
        ({
            let file = file_with(c, key, value, number, backends)->Ok_0;
            let r = resolved_of(Some(file), env, backends);
            let indexer = r.config.indexer;
            let sources = r.sources.indexer;
            &&& text_setting(r, key) matches Some((v, variable, source)) ==> (
            !env.vars.contains_key(variable) ==> {
                &&& v == value
                &&& source == SourceView::File || key == "store.provider"@ && value.len() == 0
            })
            &&& count_setting(r, key) matches Some((n, variable, source)) ==> (env_count(
                env.vars,
                variable,
            ) is None ==> count_value(value) == Some(n as nat) && source == SourceView::File)
            &&& key == "indexer.max_cost"@ && env.max_cost is None ==> number == Some(
                indexer.max_cost,
            ) && sources.max_cost == SourceView::File
            &&& key == "indexer.hwm_success_threshold"@ && env.hwm_success_threshold is None
                ==> number == Some(indexer.hwm_success_threshold)
                && sources.hwm_success_threshold == SourceView::File
            &&& key == "taps"@ && names_in(value).len() > 0 ==> tap_names(r.config.taps)
                == names_in(value) && r.sources.taps.source == SourceView::File
        }),
{
    reveal_strlit("");
    if value.len() == 0 {
        assert(value =~= ""@);
    }
    reveal_strlit("store.provider");
    reveal_strlit("embedder.provider");
    reveal_strlit("embedder.model");
    reveal_strlit("embedder.embed_mode");
    reveal_strlit("embedder.ollama_host");
    reveal_strlit("embedder.voyage_api_key");
    reveal_strlit("embedder.openai_api_key");
    reveal_strlit("summarizer.provider");
    reveal_strlit("summarizer.model");
    reveal_strlit("summarizer.anthropic_api_key");
    reveal_strlit("indexer.namespace");
    reveal_strlit("indexer.default_branch");
    reveal_strlit("indexer.git_remote");
    reveal_strlit("embedder.batch_size");
    reveal_strlit("indexer.concurrency");
    reveal_strlit("indexer.max_cost");
    reveal_strlit("indexer.hwm_success_threshold");
    assert("store.provider"@[0] != "embedder.model"@[0]);
    assert("embedder.provider"@[0] != "indexer.namespace"@[0]);
    assert("embedder.embed_mode"@[0] != "summarizer.provider"@[0]);
    assert("embedder.embed_mode"@[9] != "embedder.batch_size"@[9]);
    assert("embedder.embed_mode"@[0] != "indexer.concurrency"@[0]);
    assert("embedder.voyage_api_key"@[9] != "embedder.openai_api_key"@[9]);
    assert("summarizer.provider"@[0] != "embedder.batch_size"@[0]);
    assert("summarizer.provider"@[0] != "indexer.concurrency"@[0]);
    assert("summarizer.model"@[0] != "indexer.max_cost"@[0]);
    assert("embedder.batch_size"@[0] != "indexer.concurrency"@[0]);
    reveal_strlit("taps");
    if key == "taps"@ {
        let file = file_with(c, key, value, number, backends)->Ok_0;
        let listed = listed_taps(c.taps, value);
        lemma_listed_names(c.taps, value);
        assert(tap_names(listed.map_values(|x: FileTapConfigView| tap_of(x))) =~= names_in(value))
            by {
            assert forall|i: int| 0 <= i < listed.len() implies listed[i].name == #[trigger] names_in(
                value,
            )[i] by {
                assert(listed.map_values(|t: FileTapConfigView| t.name)[i] == listed[i].name);
            }
        }
        assert(file_taps(Some(file)) == Some(listed) || names_in(value).len() == 0);
    }
}


/// A backend's setting that was set in the file is what the file layer of that
/// setting says from then on, whether it was named canonically or by a
/// deprecated flat key.
pub proof fn law_set_store_setting_is_resolved(
    c: FileConfigView,
    rest: Seq<char>,
    value: Seq<char>,
    backends: Seq<StoreBackendView>,
    spec_: SettingSpecView,
)
    requires
        store_key(backends, rest) matches Some(k) && k.key == spec_.key,
        "store."@ + rest != "store.provider"@,
    ensures
        file_with(c, "store."@ + rest, value, None, backends) matches Ok(d)
            && crate::config::store::file_setting(
            Some(d),
            store_key(backends, rest)->0.backend,
            spec_,
        ) == Some(value),
{
    let key = "store."@ + rest;
    let k = store_key(backends, rest)->0;
    reveal_strlit("store.");
    assert(key.take("store."@.len() as int) =~= "store."@);
    assert(key.skip("store."@.len() as int) =~= rest);
    reveal_strlit("embedder.provider");
    assert(key[0] != "embedder.provider"@[0] || key[1] != "embedder.provider"@[1]);
    reveal_strlit("embedder.model");
    assert(key[0] != "embedder.model"@[0] || key[1] != "embedder.model"@[1]);
    reveal_strlit("embedder.embed_mode");
    assert(key[0] != "embedder.embed_mode"@[0] || key[1] != "embedder.embed_mode"@[1]);
    reveal_strlit("embedder.batch_size");
    assert(key[0] != "embedder.batch_size"@[0] || key[1] != "embedder.batch_size"@[1]);
    reveal_strlit("embedder.ollama_host");
    assert(key[0] != "embedder.ollama_host"@[0] || key[1] != "embedder.ollama_host"@[1]);
    reveal_strlit("embedder.voyage_api_key");
    assert(key[0] != "embedder.voyage_api_key"@[0] || key[1] != "embedder.voyage_api_key"@[1]);
    reveal_strlit("embedder.openai_api_key");
    assert(key[0] != "embedder.openai_api_key"@[0] || key[1] != "embedder.openai_api_key"@[1]);
    reveal_strlit("summarizer.provider");
    assert(key[0] != "summarizer.provider"@[0] || key[1] != "summarizer.provider"@[1]);
    reveal_strlit("summarizer.model");
    assert(key[0] != "summarizer.model"@[0] || key[1] != "summarizer.model"@[1]);
    reveal_strlit("summarizer.anthropic_api_key");
    assert(key[0] != "summarizer.anthropic_api_key"@[0] || key[1] != "summarizer.anthropic_api_key"@[1]);
    reveal_strlit("indexer.namespace");
    assert(key[0] != "indexer.namespace"@[0] || key[1] != "indexer.namespace"@[1]);
    reveal_strlit("indexer.default_branch");
    assert(key[0] != "indexer.default_branch"@[0] || key[1] != "indexer.default_branch"@[1]);
    reveal_strlit("indexer.git_remote");
    assert(key[0] != "indexer.git_remote"@[0] || key[1] != "indexer.git_remote"@[1]);
    reveal_strlit("indexer.concurrency");
    assert(key[0] != "indexer.concurrency"@[0] || key[1] != "indexer.concurrency"@[1]);
    reveal_strlit("indexer.max_cost");
    assert(key[0] != "indexer.max_cost"@[0] || key[1] != "indexer.max_cost"@[1]);
    reveal_strlit("indexer.hwm_success_threshold");
    assert(key[0] != "indexer.hwm_success_threshold"@[0] || key[1] != "indexer.hwm_success_threshold"@[1]);
    reveal_strlit("taps");
    assert(key[0] != "taps"@[0]);
    law_nested_settings_read_back(
        store_or_empty(c).backends.entries,
        k.backend,
        k.key,
        value,
        k.backend,
        k.key,
    );
}

/// Every row of a backend in a listing stands for a setting that some backend
/// declares and does not call secret.
pub proof fn law_secrets_are_not_listed(
    r: ResolvedConfigView,
    backends: Seq<StoreBackendView>,
    k: int,
)
    requires
        0 <= k < backend_rows(r, backends).len(),
    ensures
        exists|b: int, i: int|
            #![trigger backends[b].settings[i]]
            0 <= b < backends.len() && 0 <= i < backends[b].settings.len()
                && !backends[b].settings[i].secret && backend_rows(r, backends)[k].key == "store."@
                + full_key(backends[b].name, backends[b].settings[i].key),
    decreases backends.len(),
{
    let head = backend_rows(r, backends.drop_last());
    let last = backends.last();
    if k < head.len() {
        law_secrets_are_not_listed(r, backends.drop_last(), k);
        let (b, i) = choose|b: int, i: int|
            #![trigger backends.drop_last()[b].settings[i]]
            0 <= b < backends.drop_last().len() && 0 <= i < backends.drop_last()[b].settings.len()
                && !backends.drop_last()[b].settings[i].secret && head[k].key == "store."@
                + full_key(
                backends.drop_last()[b].name,
                backends.drop_last()[b].settings[i].key,
            );
        assert(backends[b].settings[i] == backends.drop_last()[b].settings[i]);
    } else {
        lemma_setting_rows(r, last.name, last.settings, k - head.len());
        let i = choose|i: int|
            0 <= i < last.settings.len() && !(#[trigger] last.settings[i]).secret && setting_rows(
                r,
                last.name,
                last.settings,
            )[k - head.len()].key == "store."@ + full_key(last.name, last.settings[i].key);
        assert(backends[backends.len() - 1].settings[i] == last.settings[i]);
    }
}

proof fn lemma_setting_rows(
    r: ResolvedConfigView,
    backend: Seq<char>,
    settings: Seq<SettingSpecView>,
    k: int,
)
    requires
        0 <= k < setting_rows(r, backend, settings).len(),
    ensures
        exists|i: int|
            0 <= i < settings.len() && !(#[trigger] settings[i]).secret && setting_rows(
                r,
                backend,
                settings,
            )[k].key == "store."@ + full_key(backend, settings[i].key),
    decreases settings.len(),
{
    let head = setting_rows(r, backend, settings.drop_last());
    if k < head.len() {
        lemma_setting_rows(r, backend, settings.drop_last(), k);
        let i = choose|i: int|
            0 <= i < settings.drop_last().len() && !(#[trigger] settings.drop_last()[i]).secret
                && head[k].key == "store."@ + full_key(backend, settings.drop_last()[i].key);
        assert(settings[i] == settings.drop_last()[i]);
    } else {
        assert(!settings[settings.len() - 1].secret);
    }
}

/// Whether a key was refused because nothing goes by it.
pub open spec fn is_unknown(r: Result<FileConfigView, ConfigErrorView>) -> bool {
    match r {
        Err(ConfigErrorView::UnknownKey { key }) => true,
        Err(ConfigErrorView::UnknownStoreKey { key }) => true,
        _ => false,
    }
}

proof fn lemma_declared_keys_are_found(
    backends: Seq<StoreBackendView>,
    key: Seq<char>,
    b: int,
)
    requires
        0 <= b < backends.len(),
        declares(backends[b], key),
    ensures
        canonical_key(backends, backends[b].name, key) is Some,
    decreases backends.len(),
{
    if b > 0 {
        assert(backends.drop_first()[b - 1] == backends[b]);
        lemma_declared_keys_are_found(backends.drop_first(), key, b - 1);
    }
}

proof fn lemma_first_dot(name: Seq<char>, key: Seq<char>)
    requires
        position(name, '.') is None,
    ensures
        position(full_key(name, key), '.') == Some(name.len() as int),
    decreases key.len(),
{
    reveal_strlit(".");
    let full = full_key(name, key);
    if key.len() == 0 {
        assert(full.drop_last() =~= name);
    } else {
        lemma_first_dot(name, key.drop_last());
        assert(full.drop_last() =~= full_key(name, key.drop_last()));
    }
}

/// Every key that is listed can be set, as long as no backend has a dot in its
/// name.
pub proof fn law_listed_keys_can_be_set(
    r: ResolvedConfigView,
    backends: Seq<StoreBackendView>,
    max_cost: Seq<char>,
    hwm_success_threshold: Seq<char>,
    k: int,
    c: FileConfigView,
    value: Seq<char>,
    number: Option<Real>,
)
    requires
        0 <= k < rows_of(r, backends, max_cost, hwm_success_threshold).len(),
        forall|b: int|
            0 <= b < backends.len() ==> position((#[trigger] backends[b]).name, '.') is None,
    ensures
        !is_unknown(
            file_with(
                c,
                rows_of(r, backends, max_cost, hwm_success_threshold)[k].key,
                value,
                number,
                backends,
            ),
        ),
{
    let rows = rows_of(r, backends, max_cost, hwm_success_threshold);
    let middle = backend_rows(r, backends);
    let key = rows[k].key;
    if k == 0 {
        assert(key == "store.provider"@);
    } else if k - 1 < middle.len() {
        assert(key == middle[k - 1].key);
        law_secrets_are_not_listed(r, backends, k - 1);
        let (b, i) = choose|b: int, i: int|
            #![trigger backends[b].settings[i]]
            0 <= b < backends.len() && 0 <= i < backends[b].settings.len()
                && !backends[b].settings[i].secret && middle[k - 1].key == "store."@ + full_key(
                backends[b].name,
                backends[b].settings[i].key,
            );
        let name = backends[b].name;
        let setting = backends[b].settings[i].key;
        let rest = full_key(name, setting);
        lemma_first_dot(name, setting);
        lemma_declared_keys_are_found(backends, setting, b);
        reveal_strlit(".");
        assert(rest.take(name.len() as int) =~= name);
        assert(rest.skip(name.len() as int + 1) =~= setting);
        assert(key.take("store."@.len() as int) =~= "store."@);
        assert(key.skip("store."@.len() as int) =~= rest);
        assert(without_prefix(key, "store."@) == Some(rest));
        assert(store_key(backends, rest) is Some);
    } else {
        let j = k - 1 - middle.len();
        assert(key == other_rows(r, max_cost, hwm_success_threshold)[j].key);
    }
}

/// A variable that is set beats the file: the setting is its value, and it is told
/// as the source.
pub proof fn law_environment_wins(
    file: Option<FileConfigView>,
    env: EnvView,
    backends: Seq<StoreBackendView>,
    key: Seq<char>,
)
    ensures
        ({
            let r = resolved_of(file, env, backends);
            &&& text_setting(r, key) matches Some((v, variable, source)) ==> (
            env.vars.contains_key(variable) ==> v == env.vars[variable] && source
                == SourceView::Env(variable))
            &&& count_setting(r, key) matches Some((n, variable, source)) ==> (
            env.vars.contains_key(variable) && count_value(env.vars[variable]) is Some ==> n
                == count_value(env.vars[variable])->0 as usize && source == SourceView::Env(
                variable,
            ))
            &&& env.max_cost matches Some(n) ==> r.config.indexer.max_cost == n
                && r.sources.indexer.max_cost == SourceView::Env("WDPKR_MAX_COST"@)
            &&& env.hwm_success_threshold matches Some(n) ==> r.config.indexer.hwm_success_threshold
                == n && r.sources.indexer.hwm_success_threshold == SourceView::Env(
                "WDPKR_HWM_SUCCESS_THRESHOLD"@,
            )
        }),
{
}

/// Setting one key leaves every other setting of the file as it was, those of the
/// same block too.
pub proof fn law_set_keeps_the_other_settings(
    c: FileConfigView,
    key: Seq<char>,
    value: Seq<char>,
    number: Option<Real>,
    backends: Seq<StoreBackendView>,
)
    ensures
        file_with(c, key, value, number, backends) matches Ok(d) ==> ({
            &&& key != "store.provider"@ ==> store_or_empty(d).provider == store_or_empty(c).provider
            &&& key != "embedder.provider"@ ==> embedder_or_empty(d).provider == embedder_or_empty(c)
                .provider
            &&& key != "embedder.model"@ ==> embedder_or_empty(d).model == embedder_or_empty(c)
                .model
            &&& key != "embedder.embed_mode"@ ==> embedder_or_empty(d).embed_mode == embedder_or_empty(c)
                .embed_mode
            &&& key != "embedder.batch_size"@ ==> embedder_or_empty(d).batch_size == embedder_or_empty(c)
                .batch_size
            &&& key != "embedder.ollama_host"@ ==> embedder_or_empty(d).ollama_host == embedder_or_empty(c)
                .ollama_host
            &&& key != "embedder.voyage_api_key"@ ==> embedder_or_empty(d).voyage_api_key == embedder_or_empty(c)
                .voyage_api_key
            &&& key != "embedder.openai_api_key"@ ==> embedder_or_empty(d).openai_api_key == embedder_or_empty(c)
                .openai_api_key
            &&& key != "summarizer.provider"@ ==> summarizer_or_empty(d).provider == summarizer_or_empty(c)
                .provider
            &&& key != "summarizer.model"@ ==> summarizer_or_empty(d).model == summarizer_or_empty(c)
                .model
            &&& key != "summarizer.anthropic_api_key"@ ==> summarizer_or_empty(d).anthropic_api_key == summarizer_or_empty(c)
                .anthropic_api_key
            &&& key != "indexer.namespace"@ ==> indexer_or_empty(d).namespace == indexer_or_empty(c)
                .namespace
            &&& key != "indexer.default_branch"@ ==> indexer_or_empty(d).default_branch == indexer_or_empty(c)
                .default_branch
            &&& key != "indexer.git_remote"@ ==> indexer_or_empty(d).git_remote == indexer_or_empty(c)
                .git_remote
            &&& key != "indexer.concurrency"@ ==> indexer_or_empty(d).concurrency == indexer_or_empty(c)
                .concurrency
            &&& key != "indexer.max_cost"@ ==> indexer_or_empty(d).max_cost == indexer_or_empty(c)
                .max_cost
            &&& key != "indexer.hwm_success_threshold"@ ==> indexer_or_empty(d).hwm_success_threshold == indexer_or_empty(c)
                .hwm_success_threshold
            &&& !has_prefix(key, "store."@) || key == "store.provider"@ ==> store_or_empty(
                d,
            ).backends == store_or_empty(c).backends
        }),
{
}

/// The words of an error hold the key that it is about, and the value where that
/// could not be read.
pub proof fn law_errors_name_their_key(e: ConfigErrorView)
    ensures
        match e {
            ConfigErrorView::Unreadable { key, value, wanted } => has_prefix(
                config_error_words(e),
                key,
            ) && occurs(config_error_words(e), "'"@ + value + "'"@) && has_suffix(
                config_error_words(e),
                wanted,
            ),
            ConfigErrorView::UnknownKey { key } => has_suffix(config_error_words(e), key),
            ConfigErrorView::UnknownStoreKey { key } => occurs(config_error_words(e), key),
        },
{
    let w = config_error_words(e);
    match e {
        ConfigErrorView::Unreadable { key, value, wanted } => {
            reveal_strlit(": cannot parse '");
            reveal_strlit(": cannot parse ");
            reveal_strlit("'");
            reveal_strlit("' as ");
            reveal_strlit(" as ");
            let a = key + ": cannot parse "@;
            let p = "'"@ + value + "'"@;
            let b = " as "@ + wanted;
            assert(": cannot parse '"@ =~= ": cannot parse "@ + "'"@);
            assert("' as "@ =~= "'"@ + " as "@);
            lemma_part_between(a, p, b);
            assert(a + p + b =~= w);
            assert(w.take(key.len() as int) =~= key);
            assert(w.skip(w.len() - wanted.len()) =~= wanted);
        },
        ConfigErrorView::UnknownKey { key } => {
            lemma_part_at_end("unknown config key: "@, key);
        },
        ConfigErrorView::UnknownStoreKey { key } => {
            lemma_part_between(
                "unknown config key: "@,
                key,
                " (no store backends are registered, so no backend settings are known)"@,
            );
        },
    }
}

/// Every listed row of a setting shows the text that the setting resolves to, and
/// the layer that it comes from.
pub proof fn law_rows_show_what_is_resolved(
    r: ResolvedConfigView,
    backends: Seq<StoreBackendView>,
    max_cost: Seq<char>,
    hwm_success_threshold: Seq<char>,
    k: int,
)
    requires
        0 <= k < other_rows(r, max_cost, hwm_success_threshold).len(),
    ensures
        ({
            let row = other_rows(r, max_cost, hwm_success_threshold)[k];
            &&& text_setting(r, row.key) matches Some((v, _, source)) ==> row.value == v
                && row.source == source
            &&& count_setting(r, row.key) matches Some((n, _, source)) ==> row.value == decimal(
                n as nat,
            ) && row.source == source
            &&& row.key == "indexer.max_cost"@ ==> row.value == max_cost && row.source
                == r.sources.indexer.max_cost
            &&& row.key == "indexer.hwm_success_threshold"@ ==> row.value == hwm_success_threshold
                && row.source == r.sources.indexer.hwm_success_threshold
            &&& row.key == "taps"@ ==> row.source == r.sources.taps.source && forall|j: int|
                0 <= j < r.config.taps.len() ==> occurs(
                    row.value,
                    (#[trigger] r.config.taps[j]).name,
                )
        }),
{
    lemma_keys_differ();
    let rows = other_rows(r, max_cost, hwm_success_threshold);
    assert(rows.len() == 14);
    let names = tap_names(r.config.taps);
    assert forall|j: int| 0 <= j < r.config.taps.len() implies occurs(
        joined(names, ", "@),
        (#[trigger] r.config.taps[j]).name,
    ) by {
        assert(names[j] == r.config.taps[j].name);
        lemma_joined_holds(names, ", "@, j);
    }
    let row = rows[k];
    assert(rows[0].key == "embedder.provider"@);
    assert(rows[1].key == "embedder.model"@);
    assert(rows[2].key == "embedder.batch_size"@);
    assert(rows[3].key == "embedder.embed_mode"@);
    assert(rows[4].key == "embedder.ollama_host"@);
    assert(rows[5].key == "summarizer.provider"@);
    assert(rows[6].key == "summarizer.model"@);
    assert(rows[7].key == "indexer.namespace"@);
    assert(rows[8].key == "indexer.default_branch"@);
    assert(rows[9].key == "indexer.git_remote"@);
    assert(rows[10].key == "indexer.concurrency"@);
    assert(rows[11].key == "indexer.max_cost"@);
    assert(rows[12].key == "indexer.hwm_success_threshold"@);
    assert(rows[13].key == "taps"@);
}

/// What tells the keys of the settings apart: their lengths, and of keys of the same
/// length a character.
proof fn lemma_keys_differ()
    ensures
        "embedder.batch_size"@.len() == 19 && "embedder.batch_size"@[0] == 'e' && "embedder.batch_size"@[9] == 'b',
        "embedder.embed_mode"@.len() == 19 && "embedder.embed_mode"@[0] == 'e' && "embedder.embed_mode"@[9] == 'e',
        "embedder.model"@.len() == 14 && "embedder.model"@[0] == 'e',
        "embedder.ollama_host"@.len() == 20,
        "embedder.openai_api_key"@.len() == 23 && "embedder.openai_api_key"@[9] == 'o',
        "embedder.provider"@.len() == 17 && "embedder.provider"@[0] == 'e',
        "embedder.voyage_api_key"@.len() == 23 && "embedder.voyage_api_key"@[9] == 'v',
        "indexer.concurrency"@.len() == 19 && "indexer.concurrency"@[0] == 'i',
        "indexer.default_branch"@.len() == 22,
        "indexer.git_remote"@.len() == 18,
        "indexer.hwm_success_threshold"@.len() == 29,
        "indexer.max_cost"@.len() == 16 && "indexer.max_cost"@[0] == 'i',
        "indexer.namespace"@.len() == 17 && "indexer.namespace"@[0] == 'i',
        "store.provider"@.len() == 14 && "store.provider"@[0] == 's',
        "summarizer.anthropic_api_key"@.len() == 28,
        "summarizer.model"@.len() == 16 && "summarizer.model"@[0] == 's',
        "summarizer.provider"@.len() == 19 && "summarizer.provider"@[0] == 's',
        "taps"@.len() == 4,
{
    reveal_strlit("embedder.batch_size");
    reveal_strlit("embedder.embed_mode");
    reveal_strlit("embedder.model");
    reveal_strlit("embedder.ollama_host");
    reveal_strlit("embedder.openai_api_key");
    reveal_strlit("embedder.provider");
    reveal_strlit("embedder.voyage_api_key");
    reveal_strlit("indexer.concurrency");
    reveal_strlit("indexer.default_branch");
    reveal_strlit("indexer.git_remote");
    reveal_strlit("indexer.hwm_success_threshold");
    reveal_strlit("indexer.max_cost");
    reveal_strlit("indexer.namespace");
    reveal_strlit("store.provider");
    reveal_strlit("summarizer.anthropic_api_key");
    reveal_strlit("summarizer.model");
    reveal_strlit("summarizer.provider");
    reveal_strlit("taps");
}

/// What holds where nothing is configured: Voyage embeds, Anthropic summarizes with
/// the model of the environment, the files of `main` at `origin` are indexed, eight at
/// a time, from their summaries; no store is chosen.
pub proof fn law_defaults(env: EnvView, backends: Seq<StoreBackendView>)
    requires
        env.vars == Map::<Seq<char>, Seq<char>>::empty(),
        env.max_cost is None,
        env.hwm_success_threshold is None,
    ensures
        ({
            let c = resolved_of(None, env, backends).config;
            &&& c.store.provider == ""@
            &&& c.embed.provider == "voyage"@
            &&& c.embed.model == "voyage-code-3"@
            &&& c.embed.batch_size == 64
            &&& c.embed.embed_mode == "summary"@
            &&& c.embed.ollama_host == "http://localhost:11434"@
            &&& c.embed.voyage_api_key == ""@
            &&& c.embed.openai_api_key == ""@
            &&& c.summarizer.provider == "anthropic"@
            &&& c.summarizer.model == env.default_model
            &&& c.summarizer.api_key == ""@
            &&& c.indexer.namespace == ""@
            &&& c.indexer.default_branch == "main"@
            &&& c.indexer.git_remote == "origin"@
            &&& c.indexer.concurrency == 8
            &&& c.taps.len() == 1
            &&& c.taps[0].name == "files"@
        }),
{
    reveal_strlit("voyage");
    reveal_strlit("ollama");
    reveal_strlit("openai");
    assert("voyage"@[0] != "ollama"@[0]);
    assert("voyage"@[0] != "openai"@[0]);
}

/// Where no model is chosen, it is the one of the provider that is.
pub proof fn law_models_follow_the_provider(
    file: Option<FileConfigView>,
    env: EnvView,
    backends: Seq<StoreBackendView>,
)
    requires
        resolved_of(file, env, backends).sources.embed.model is Default,
    ensures
        ({
            let c = resolved_of(file, env, backends).config.embed;
            &&& c.provider == "ollama"@ ==> c.model == "nomic-embed-text"@
            &&& c.provider == "openai"@ ==> c.model == "text-embedding-3-large"@
            &&& c.provider == "voyage"@ ==> c.model == "voyage-code-3"@
        }),
{
    reveal_strlit("voyage");
    reveal_strlit("ollama");
    reveal_strlit("openai");
    assert("voyage"@[0] != "ollama"@[0]);
    assert("voyage"@[0] != "openai"@[0]);
    assert("ollama"@[1] != "openai"@[1]);
}

} // verus!
