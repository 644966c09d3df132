//! Taps: the sources that are indexed, and what they hand over.
use vstd::prelude::*;

use crate::config::tap::{TapConfig, TapConfigView};
use crate::config::value::{Settings, SettingsView, SettingView};
use crate::tap::linear::{linear_error_words, LinearError, LinearErrorView, LinearTapSettings,
    LinearTapSettingsView};
use crate::tap::notion::{NotionError, NotionTapSettings, NotionTapSettingsView};
use crate::text::{
    has_suffix, join, joined, lemma_joined_holds, lemma_part_at_end, lemma_part_between,
    lemma_part_of_part, occurs, same,
};
use crate::textmap::TextMap;

pub mod files;
pub mod linear;
pub mod notion;

verus! {

/// What a tap is told before it fetches.
#[derive(Debug)]
pub struct FetchContext {
    /// Whether to ignore the stored cursor and fetch everything.
    pub full: bool,
    /// Opaque state of the previous run: a commit for files, a timestamp or a
    /// page token for services.
    pub cursor: Option<String>,
    /// Content hash by source path, for leaving out what did not change.
    pub stored_hashes: TextMap,
}

/// What a [`FetchContext`] holds.
#[verifier::ext_equal]
pub struct FetchContextView {
    pub full: bool,
    pub cursor: Option<Seq<char>>,
    pub stored_hashes: Map<Seq<char>, Seq<char>>,
}

impl DeepView for FetchContext {
    type V = FetchContextView;

    open spec fn deep_view(&self) -> FetchContextView {
        FetchContextView {
            full: self.full,
            cursor: self.cursor.deep_view(),
            stored_hashes: self.stored_hashes@,
        }
    }
}

impl Clone for FetchContext {
    fn clone(&self) -> (r: Self)
        ensures
            r.deep_view() == self.deep_view(),
    {
        FetchContext {
            full: self.full,
            cursor: self.cursor.clone(),
            stored_hashes: self.stored_hashes.clone(),
        }
    }
}

/// A part of a [`SourceItem`]: a function, struct or method of a code file, a
/// section of a document.
#[derive(Debug)]
pub struct SourceChunk {
    pub name: String,
    /// Normalized kind: "function", "struct", "section" and so on.
    pub kind: String,
    /// The text to summarize.
    pub content: String,
    /// Function or method signature (code only).
    pub signature: Option<String>,
    /// Cleaned doc comment (code only).
    pub doc_comment: Option<String>,
    pub start_line: Option<u32>,
    pub end_line: Option<u32>,
    /// Outbound references for call graph resolution (code only).
    pub references: Vec<String>,
}

/// What a [`SourceChunk`] holds.
#[verifier::ext_equal]
pub struct SourceChunkView {
    pub name: Seq<char>,
    pub kind: Seq<char>,
    pub content: Seq<char>,
    pub signature: Option<Seq<char>>,
    pub doc_comment: Option<Seq<char>>,
    pub start_line: Option<u32>,
    pub end_line: Option<u32>,
    pub references: Seq<Seq<char>>,
}

impl DeepView for SourceChunk {
    type V = SourceChunkView;

    open spec fn deep_view(&self) -> SourceChunkView {
        SourceChunkView {
            name: self.name@,
            kind: self.kind@,
            content: self.content@,
            signature: self.signature.deep_view(),
            doc_comment: self.doc_comment.deep_view(),
            start_line: self.start_line.deep_view(),
            end_line: self.end_line.deep_view(),
            references: self.references.deep_view(),
        }
    }
}

impl Clone for SourceChunk {
    fn clone(&self) -> (r: Self)
        ensures
            r.deep_view() == self.deep_view(),
    {
        SourceChunk {
            name: self.name.clone(),
            kind: self.kind.clone(),
            content: self.content.clone(),
            signature: self.signature.clone(),
            doc_comment: self.doc_comment.clone(),
            start_line: self.start_line,
            end_line: self.end_line,
            references: self.references.clone(),
        }
    }
}

/// One document of a source, ready for summarizing.
#[derive(Debug)]
pub struct SourceItem {
    /// Identifier within the tap: a relative path for files, a URI such as
    /// `linear://ENG-123` for services.
    pub source_path: String,
    /// Full text content.
    pub content: String,
    /// Hash of the content, for change detection.
    pub content_hash: String,
    /// Programming language, where there is one.
    pub language: Option<String>,
    /// Module-level doc comment of the whole item (code only).
    pub module_doc: Option<String>,
    /// Symbols of code, sections of documents.
    pub children: Vec<SourceChunk>,
}

/// What a [`SourceItem`] holds.
#[verifier::ext_equal]
pub struct SourceItemView {
    pub source_path: Seq<char>,
    pub content: Seq<char>,
    pub content_hash: Seq<char>,
    pub language: Option<Seq<char>>,
    pub module_doc: Option<Seq<char>>,
    pub children: Seq<SourceChunkView>,
}

impl DeepView for SourceItem {
    type V = SourceItemView;

    open spec fn deep_view(&self) -> SourceItemView {
        SourceItemView {
            source_path: self.source_path@,
            content: self.content@,
            content_hash: self.content_hash@,
            language: self.language.deep_view(),
            module_doc: self.module_doc.deep_view(),
            children: self.children.deep_view(),
        }
    }
}

impl Clone for SourceItem {
    fn clone(&self) -> (r: Self)
        ensures
            r.deep_view() == self.deep_view(),
    {
        SourceItem {
            source_path: self.source_path.clone(),
            content: self.content.clone(),
            content_hash: self.content_hash.clone(),
            language: self.language.clone(),
            module_doc: self.module_doc.clone(),
            children: self.children.clone(),
        }
    }
}

/// What a tap hands over.
#[derive(Debug)]
pub struct FetchResult {
    /// Items to process.
    pub items: Vec<SourceItem>,
    /// Source paths to delete from the store.
    pub deletions: Vec<String>,
    /// Cursor to persist for the next incremental run.
    pub cursor: Option<String>,
}

/// What a [`FetchResult`] holds.
#[verifier::ext_equal]
pub struct FetchResultView {
    pub items: Seq<SourceItemView>,
    pub deletions: Seq<Seq<char>>,
    pub cursor: Option<Seq<char>>,
}

impl DeepView for FetchResult {
    type V = FetchResultView;

    open spec fn deep_view(&self) -> FetchResultView {
        FetchResultView {
            items: self.items.deep_view(),
            deletions: self.deletions.deep_view(),
            cursor: self.cursor.deep_view(),
        }
    }
}

impl Clone for FetchResult {
    fn clone(&self) -> (r: Self)
        ensures
            r.deep_view() == self.deep_view(),
    {
        FetchResult {
            items: self.items.clone(),
            deletions: self.deletions.clone(),
            cursor: self.cursor.clone(),
        }
    }
}

/// The namespace suffix of a tap, in words.
pub open spec fn suffix_of(tap_name: Seq<char>) -> Option<Seq<char>> {
    if tap_name == "files"@ {
        None
    } else {
        Some("--"@ + tap_name)
    }
}

/// Namespace suffix of a tap: none for the files tap, `--{name}` for others.
pub fn namespace_suffix(tap_name: &str) -> (r: Option<String>)
    ensures
        r.deep_view() == suffix_of(tap_name@),
{
    if same(tap_name, "files") {
        None
    } else {
        let mut s = "--".to_string();
        s.append(tap_name);
        Some(s)
    }
}

/// Whether an item may be left out: not on a full run, and its stored hash is
/// its hash.
pub open spec fn unchanged(ctx: FetchContextView, path: Seq<char>, hash: Seq<char>) -> bool {
    !ctx.full && ctx.stored_hashes.contains_key(path) && ctx.stored_hashes[path] == hash
}

/// Whether an item may be left out.
pub fn is_unchanged(ctx: &FetchContext, path: &str, hash: &str) -> (r: bool)
    ensures
        r == unchanged(ctx.deep_view(), path@, hash@),
{
    if ctx.full {
        return false;
    }
    match ctx.stored_hashes.get(path) {
        Some(h) => same(h, hash),
        None => false,
    }
}

/// The tap that indexes a repository.
#[derive(Debug)]
pub struct FilesTap {
    /// The root of the repository.
    pub root: String,
}

/// What a [`FilesTap`] holds.
#[verifier::ext_equal]
pub struct FilesTapView {
    pub root: Seq<char>,
}

impl DeepView for FilesTap {
    type V = FilesTapView;

    open spec fn deep_view(&self) -> FilesTapView {
        FilesTapView {
            root: self.root@,
        }
    }
}

impl Clone for FilesTap {
    fn clone(&self) -> (r: Self)
        ensures
            r.deep_view() == self.deep_view(),
    {
        FilesTap {
            root: self.root.clone(),
        }
    }
}

/// A tap that another program serves.
#[derive(Debug)]
pub struct ProcessTap {
    pub name: String,
    pub command: String,
    pub args: Vec<String>,
    pub settings: Settings,
}

/// What a [`ProcessTap`] holds.
#[verifier::ext_equal]
pub struct ProcessTapView {
    pub name: Seq<char>,
    pub command: Seq<char>,
    pub args: Seq<Seq<char>>,
    pub settings: SettingsView,
}

impl DeepView for ProcessTap {
    type V = ProcessTapView;

    open spec fn deep_view(&self) -> ProcessTapView {
        ProcessTapView {
            name: self.name@,
            command: self.command@,
            args: self.args.deep_view(),
            settings: self.settings.deep_view(),
        }
    }
}

impl Clone for ProcessTap {
    fn clone(&self) -> (r: Self)
        ensures
            r.deep_view() == self.deep_view(),
    {
        ProcessTap {
            name: self.name.clone(),
            command: self.command.clone(),
            args: self.args.clone(),
            settings: self.settings.clone(),
        }
    }
}

/// The tap that indexes Linear issues.
#[derive(Debug)]
pub struct LinearTap {
    pub settings: LinearTapSettings,
    pub api_key: String,
}

/// What a [`LinearTap`] holds.
#[verifier::ext_equal]
pub struct LinearTapView {
    pub settings: LinearTapSettingsView,
    pub api_key: Seq<char>,
}

impl DeepView for LinearTap {
    type V = LinearTapView;

    open spec fn deep_view(&self) -> LinearTapView {
        LinearTapView {
            settings: self.settings.deep_view(),
            api_key: self.api_key@,
        }
    }
}

impl Clone for LinearTap {
    fn clone(&self) -> (r: Self)
        ensures
            r.deep_view() == self.deep_view(),
    {
        LinearTap {
            settings: self.settings.clone(),
            api_key: self.api_key.clone(),
        }
    }
}

/// The tap that indexes Notion pages.
#[derive(Debug)]
pub struct NotionTap {
    pub settings: NotionTapSettings,
    /// The page ids or URLs to index in this run.
    pub targets: Vec<String>,
    pub api_key: String,
}

/// What a [`NotionTap`] holds.
#[verifier::ext_equal]
pub struct NotionTapView {
    pub settings: NotionTapSettingsView,
    pub targets: Seq<Seq<char>>,
    pub api_key: Seq<char>,
}

impl DeepView for NotionTap {
    type V = NotionTapView;

    open spec fn deep_view(&self) -> NotionTapView {
        NotionTapView {
            settings: self.settings.deep_view(),
            targets: self.targets.deep_view(),
            api_key: self.api_key@,
        }
    }
}

impl Clone for NotionTap {
    fn clone(&self) -> (r: Self)
        ensures
            r.deep_view() == self.deep_view(),
    {
        NotionTap {
            settings: self.settings.clone(),
            targets: self.targets.clone(),
            api_key: self.api_key.clone(),
        }
    }
}

/// A tap, ready to fetch.
#[derive(Debug)]
pub enum BuiltTap {
    Process(ProcessTap),
    Files(FilesTap),
    Linear(LinearTap),
    Notion(NotionTap),
}

/// What a [`BuiltTap`] holds.
#[verifier::ext_equal]
pub enum BuiltTapView {
    Process(ProcessTapView),
    Files(FilesTapView),
    Linear(LinearTapView),
    Notion(NotionTapView),
}

impl DeepView for BuiltTap {
    type V = BuiltTapView;

    open spec fn deep_view(&self) -> BuiltTapView {
        match self {
            BuiltTap::Process(t) => BuiltTapView::Process(t.deep_view()),
            BuiltTap::Files(t) => BuiltTapView::Files(t.deep_view()),
            BuiltTap::Linear(t) => BuiltTapView::Linear(t.deep_view()),
            BuiltTap::Notion(t) => BuiltTapView::Notion(t.deep_view()),
        }
    }
}

/// Why a tap cannot be built.
#[derive(Debug)]
pub enum TapError {
    /// A setting of the linear tap is wrong.
    Linear(LinearError),
    /// A setting of the notion tap is wrong.
    Notion(NotionError),
    /// There is no API key for Linear.
    NoLinearKey { variable: String },
    /// There is no API key for Notion.
    NoNotionKey { variable: String },
    /// There is no built-in tap of that name.
    Unknown { name: String },
    /// No tap of that name is configured.
    NotConfigured { name: String, configured: Vec<String> },
}

/// What a [`TapError`] holds.
#[verifier::ext_equal]
pub enum TapErrorView {
    Linear(LinearErrorView),
    Notion(NotionError),
    NoLinearKey { variable: Seq<char> },
    NoNotionKey { variable: Seq<char> },
    Unknown { name: Seq<char> },
    NotConfigured { name: Seq<char>, configured: Seq<Seq<char>> },
}

impl DeepView for TapError {
    type V = TapErrorView;

    open spec fn deep_view(&self) -> TapErrorView {
        match self {
            TapError::Linear(e) => TapErrorView::Linear(e.deep_view()),
            TapError::Notion(e) => TapErrorView::Notion(*e),
            TapError::NoLinearKey { variable } => TapErrorView::NoLinearKey {
                variable: variable@,
            },
            TapError::NoNotionKey { variable } => TapErrorView::NoNotionKey {
                variable: variable@,
            },
            TapError::Unknown { name } => TapErrorView::Unknown { name: name@ },
            TapError::NotConfigured { name, configured } => TapErrorView::NotConfigured {
                name: name@,
                configured: configured.deep_view(),
            },
        }
    }
}

/// An error in words.
pub open spec fn tap_error_words(e: TapErrorView) -> Seq<char> {
    match e {
        TapErrorView::Linear(e) => linear_error_words(e),
        TapErrorView::Notion(e) => e.words(),
        TapErrorView::NoLinearKey { variable } => "Linear API key not set: export "@ + variable
            + " (or set the linear tap's settings.api_key_env)"@,
        TapErrorView::NoNotionKey { variable } =>
            "Notion API key not set: put it in the notion tap's settings.api_key, or export "@
            + variable,
        TapErrorView::Unknown { name } => "unknown built-in tap '"@ + name
            + "'; external taps must specify a 'command' field"@,
        TapErrorView::NotConfigured { name, configured } => "tap '"@ + name
            + "' is not configured; configured taps: "@ + joined(configured, ", "@),
    }
}

impl TapError {
    /// The error as text.
    pub fn message(&self) -> (r: String)
        ensures
            r@ == tap_error_words(self.deep_view()),
    {
        match self {
            TapError::Linear(e) => e.message(),
            TapError::Notion(e) => e.message(),
            TapError::NoLinearKey { variable } => {
                let mut r = "Linear API key not set: export ".to_string();
                r.append(variable.as_str());
                r.append(" (or set the linear tap's settings.api_key_env)");
                r
            },
            TapError::NoNotionKey { variable } => {
                let mut r =
                    "Notion API key not set: put it in the notion tap's settings.api_key, or export ".to_string();
                r.append(variable.as_str());
                r
            },
            TapError::Unknown { name } => {
                let mut r = "unknown built-in tap '".to_string();
                r.append(name.as_str());
                r.append("'; external taps must specify a 'command' field");
                r
            },
            TapError::NotConfigured { name, configured } => {
                let mut r = "tap '".to_string();
                r.append(name.as_str());
                r.append("' is not configured; configured taps: ");
                r.append(join(configured, ", ").as_str());
                r
            },
        }
    }
}

/// A variable of the environment.
pub open spec fn variable_of(env: Map<Seq<char>, Seq<char>>, name: Seq<char>) -> Option<Seq<char>> {
    if env.contains_key(name) {
        Some(env[name])
    } else {
        None
    }
}

/// The linear tap of these settings, or why there is none.
pub open spec fn linear_tap_of(
    s: Seq<SettingView>,
    env: Map<Seq<char>, Seq<char>>,
) -> Result<LinearTapView, TapErrorView> {
    match linear::settings_of(s) {
        Err(e) => Err(TapErrorView::Linear(e)),
        Ok(settings) => match variable_of(env, settings.api_key_env) {
            Some(api_key) => Ok(LinearTapView { settings, api_key }),
            None => Err(TapErrorView::NoLinearKey { variable: settings.api_key_env }),
        },
    }
}

/// The notion tap of these settings, or why there is none.
pub open spec fn notion_tap_of(
    s: Seq<SettingView>,
    targets: Seq<Seq<char>>,
    env: Map<Seq<char>, Seq<char>>,
) -> Result<NotionTapView, TapErrorView> {
    match notion::settings_of(s) {
        Err(e) => Err(TapErrorView::Notion(e)),
        Ok(settings) => match notion::token_of(settings, variable_of(env, settings.api_key_env)) {
            Some(api_key) => Ok(NotionTapView { settings, targets, api_key }),
            None => Err(TapErrorView::NoNotionKey { variable: settings.api_key_env }),
        },
    }
}

/// The tap of a configuration, or why there is none: one with a command is
/// served by that program, whatever its name.
pub open spec fn tap_of(
    cfg: TapConfigView,
    root: Seq<char>,
    targets: Seq<Seq<char>>,
    env: Map<Seq<char>, Seq<char>>,
) -> Result<BuiltTapView, TapErrorView> {
    match cfg.command {
        Some(command) => Ok(
            BuiltTapView::Process(
                ProcessTapView { name: cfg.name, command, args: cfg.args, settings: cfg.settings },
            ),
        ),
        None => if cfg.name == "files"@ {
            Ok(BuiltTapView::Files(FilesTapView { root }))
        } else if cfg.name == "linear"@ {
            match linear_tap_of(cfg.settings.entries, env) {
                Ok(t) => Ok(BuiltTapView::Linear(t)),
                Err(e) => Err(e),
            }
        } else if cfg.name == "notion"@ {
            match notion_tap_of(cfg.settings.entries, targets, env) {
                Ok(t) => Ok(BuiltTapView::Notion(t)),
                Err(e) => Err(e),
            }
        } else {
            Err(TapErrorView::Unknown { name: cfg.name })
        },
    }
}

/// The name of a tap.
pub open spec fn tap_name(t: BuiltTapView) -> Seq<char> {
    match t {
        BuiltTapView::Process(p) => p.name,
        BuiltTapView::Files(_) => "files"@,
        BuiltTapView::Linear(_) => "linear"@,
        BuiltTapView::Notion(_) => "notion"@,
    }
}

impl FilesTap {
    /// The tap of the repository at that root.
    pub fn new(root: &str) -> (r: FilesTap)
        ensures
            r.root@ == root@,
    {
        FilesTap { root: root.to_string() }
    }

    /// The name of the tap.
    pub fn name(&self) -> (r: &'static str)
        ensures
            r@ == "files"@,
    {
        "files"
    }
}

impl LinearTap {
    /// Builds the tap from its settings and the environment.
    pub fn from_settings(settings: &Settings, env: &TextMap) -> (r: Result<LinearTap, TapError>)
        ensures
            match r {
                Ok(t) => linear_tap_of(settings.deep_view().entries, env@) == Ok::<
                    LinearTapView,
                    TapErrorView,
                >(t.deep_view()),
                Err(e) => linear_tap_of(settings.deep_view().entries, env@) == Err::<
                    LinearTapView,
                    TapErrorView,
                >(e.deep_view()),
            },
    {
        let settings = match LinearTapSettings::from_settings(settings) {
            Ok(s) => s,
            Err(e) => {
                return Err(TapError::Linear(e));
            },
        };
        match env.get(settings.api_key_env.as_str()) {
            Some(k) => Ok(LinearTap { settings, api_key: k.to_string() }),
            None => Err(TapError::NoLinearKey { variable: settings.api_key_env }),
        }
    }
}

impl NotionTap {
    /// Builds the tap from its settings, the pages to index and the environment.
    pub fn from_settings(settings: &Settings, targets: &Vec<String>, env: &TextMap) -> (r: Result<
        NotionTap,
        TapError,
    >)
        ensures
            match r {
                Ok(t) => notion_tap_of(settings.deep_view().entries, targets.deep_view(), env@)
                    == Ok::<NotionTapView, TapErrorView>(t.deep_view()),
                Err(e) => notion_tap_of(settings.deep_view().entries, targets.deep_view(), env@)
                    == Err::<NotionTapView, TapErrorView>(e.deep_view()),
            },
    {
        let settings = match NotionTapSettings::from_settings(settings) {
            Ok(s) => s,
            Err(e) => {
                return Err(TapError::Notion(e));
            },
        };
        let from_env: Option<String> = match env.get(settings.api_key_env.as_str()) {
            Some(v) => Some(v.to_string()),
            None => None,
        };
        match settings.token(&from_env) {
            Some(api_key) => Ok(NotionTap { settings, targets: targets.clone(), api_key }),
            None => Err(TapError::NoNotionKey { variable: settings.api_key_env }),
        }
    }
}

impl BuiltTap {
    /// The name of the tap.
    pub fn name(&self) -> (r: &str)
        ensures
            r@ == tap_name(self.deep_view()),
    {
        match self {
            BuiltTap::Process(p) => p.name.as_str(),
            BuiltTap::Files(t) => t.name(),
            BuiltTap::Linear(_) => "linear",
            BuiltTap::Notion(_) => "notion",
        }
    }
}

/// Builds the tap of a configuration.
pub fn build_tap(cfg: &TapConfig, root: &str, targets: &Vec<String>, env: &TextMap) -> (r: Result<
    BuiltTap,
    TapError,
>)
    ensures
        match r {
            Ok(t) => tap_of(cfg.deep_view(), root@, targets.deep_view(), env@) == Ok::<
                BuiltTapView,
                TapErrorView,
            >(t.deep_view()),
            Err(e) => tap_of(cfg.deep_view(), root@, targets.deep_view(), env@) == Err::<
                BuiltTapView,
                TapErrorView,
            >(e.deep_view()),
        },
{
    if let Some(command) = &cfg.command {
        return Ok(
            BuiltTap::Process(
                ProcessTap {
                    name: cfg.name.clone(),
                    command: command.clone(),
                    args: cfg.args.clone(),
                    settings: cfg.settings.clone(),
                },
            ),
        );
    }
    if same(cfg.name.as_str(), "files") {
        Ok(BuiltTap::Files(FilesTap::new(root)))
    } else if same(cfg.name.as_str(), "linear") {
        match LinearTap::from_settings(&cfg.settings, env) {
            Ok(t) => Ok(BuiltTap::Linear(t)),
            Err(e) => Err(e),
        }
    } else if same(cfg.name.as_str(), "notion") {
        match NotionTap::from_settings(&cfg.settings, targets, env) {
            Ok(t) => Ok(BuiltTap::Notion(t)),
            Err(e) => Err(e),
        }
    } else {
        Err(TapError::Unknown { name: cfg.name.clone() })
    }
}

/// The names of configurations.
pub open spec fn config_names(configs: Seq<TapConfigView>) -> Seq<Seq<char>> {
    configs.map_values(|c: TapConfigView| c.name)
}

/// The configurations of that name, or all where none is asked for.
pub open spec fn selected(configs: Seq<TapConfigView>, only: Option<Seq<char>>) -> Seq<
    TapConfigView,
>
    decreases configs.len(),
{
    if configs.len() == 0 {
        configs
    } else if only is Some && only != Some(configs.last().name) {
        selected(configs.drop_last(), only)
    } else {
        selected(configs.drop_last(), only).push(configs.last())
    }
}

/// The taps of configurations, or why the first that cannot be built cannot.
pub open spec fn all_taps(
    configs: Seq<TapConfigView>,
    root: Seq<char>,
    targets: Seq<Seq<char>>,
    env: Map<Seq<char>, Seq<char>>,
) -> Result<Seq<BuiltTapView>, TapErrorView>
    decreases configs.len(),
{
    if configs.len() == 0 {
        Ok(Seq::<BuiltTapView>::empty())
    } else {
        match all_taps(configs.drop_last(), root, targets, env) {
            Err(e) => Err(e),
            Ok(taps) => match tap_of(configs.last(), root, targets, env) {
                Ok(t) => Ok(taps.push(t)),
                Err(e) => Err(e),
            },
        }
    }
}

/// The taps to run, or why they cannot be built.
pub open spec fn taps_of(
    configs: Seq<TapConfigView>,
    root: Seq<char>,
    only: Option<Seq<char>>,
    targets: Seq<Seq<char>>,
    env: Map<Seq<char>, Seq<char>>,
) -> Result<Seq<BuiltTapView>, TapErrorView> {
    if only is Some && selected(configs, only).len() == 0 {
        Err(
            TapErrorView::NotConfigured {
                name: only->0,
                configured: config_names(configs),
            },
        )
    } else {
        all_taps(selected(configs, only), root, targets, env)
    }
}

proof fn lemma_all_taps_fails(
    configs: Seq<TapConfigView>,
    k: int,
    root: Seq<char>,
    targets: Seq<Seq<char>>,
    env: Map<Seq<char>, Seq<char>>,
)
    requires
        0 <= k <= configs.len(),
        all_taps(configs.take(k), root, targets, env) is Err,
    ensures
        all_taps(configs, root, targets, env) == all_taps(configs.take(k), root, targets, env),
    decreases configs.len() - k,
{
    if k == configs.len() {
        assert(configs.take(k) =~= configs);
    } else {
        assert(configs.take(k + 1).drop_last() =~= configs.take(k));
        lemma_all_taps_fails(configs, k + 1, root, targets, env);
    }
}

fn names_of(configs: &Vec<TapConfig>) -> (r: Vec<String>)
    ensures
        r.deep_view() == config_names(configs.deep_view()),
{
    let ghost want = config_names(configs.deep_view());
    let mut out: Vec<String> = Vec::new();
    let mut i: usize = 0;
    assert(out.deep_view() =~= want.take(0));
    while i < configs.len()
        invariant
            i <= configs@.len(),
            want == config_names(configs.deep_view()),
            out.deep_view() == want.take(i as int),
        decreases configs@.len() - i,
    {
        let ghost before = out.deep_view();
        out.push(configs[i].name.clone());
        proof {
            assert(want[i as int] == configs@[i as int].name@);
            assert(out.deep_view() =~= before.push(want[i as int]));
            assert(want.take(i + 1) =~= want.take(i as int).push(want[i as int]));
        }
        i += 1;
    }
    assert(want.take(i as int) =~= want);
    out
}

fn select(configs: &Vec<TapConfig>, only: Option<&str>) -> (r: Vec<TapConfig>)
    ensures
        r.deep_view() == selected(configs.deep_view(), only.deep_view()),
{
    let ghost cv = configs.deep_view();
    let mut out: Vec<TapConfig> = Vec::new();
    let mut i: usize = 0;
    proof {
        assert(cv.take(0) =~= Seq::<TapConfigView>::empty());
        assert(out.deep_view() =~= selected(cv.take(0), only.deep_view()));
    }
    while i < configs.len()
        invariant
            i <= configs@.len(),
            cv == configs.deep_view(),
            out.deep_view() == selected(cv.take(i as int), only.deep_view()),
        decreases configs@.len() - i,
    {
        proof {
            assert(cv.take(i + 1).drop_last() =~= cv.take(i as int));
            assert(cv.take(i + 1).last() == configs@[i as int].deep_view());
        }
        let wanted = match only {
            Some(name) => same(configs[i].name.as_str(), name),
            None => true,
        };
        if wanted {
            let ghost before = out.deep_view();
            let c = configs[i].clone();
            let ghost one = c.deep_view();
            out.push(c);
            assert(out.deep_view() =~= before.push(one));
        }
        i += 1;
    }
    assert(cv.take(i as int) =~= cv);
    out
}

/// Builds the taps of a configuration, or only those of one name.
pub fn build_taps(
    configs: &Vec<TapConfig>,
    root: &str,
    only: Option<&str>,
    targets: &Vec<String>,
    env: &TextMap,
) -> (r: Result<Vec<BuiltTap>, TapError>)
    ensures
        match r {
            Ok(t) => taps_of(
                configs.deep_view(),
                root@,
                only.deep_view(),
                targets.deep_view(),
                env@,
            ) == Ok::<Seq<BuiltTapView>, TapErrorView>(t.deep_view()),
            Err(e) => taps_of(
                configs.deep_view(),
                root@,
                only.deep_view(),
                targets.deep_view(),
                env@,
            ) == Err::<Seq<BuiltTapView>, TapErrorView>(e.deep_view()),
        },
{
    let chosen = select(configs, only);
    let ghost cv = chosen.deep_view();
    assert(cv.len() == chosen@.len());
    if let Some(name) = only {
        if chosen.len() == 0 {
            return Err(
                TapError::NotConfigured { name: name.to_string(), configured: names_of(configs) },
            );
        }
    }
    let mut out: Vec<BuiltTap> = Vec::new();
    let mut i: usize = 0;
    proof {
        assert(cv.take(0) =~= Seq::<TapConfigView>::empty());
        assert(out.deep_view() =~= Seq::<BuiltTapView>::empty());
    }
    while i < chosen.len()
        invariant
            i <= chosen@.len(),
            cv == chosen.deep_view(),
            cv.len() == chosen@.len(),
            cv == selected(configs.deep_view(), only.deep_view()),
            only is Some ==> chosen@.len() > 0,
            all_taps(cv.take(i as int), root@, targets.deep_view(), env@) == Ok::<
                Seq<BuiltTapView>,
                TapErrorView,
            >(out.deep_view()),
        decreases chosen@.len() - i,
    {
        proof {
            assert(cv.take(i + 1).drop_last() =~= cv.take(i as int));
            assert(cv.take(i + 1).last() == chosen@[i as int].deep_view());
        }
        match build_tap(&chosen[i], root, targets, env) {
            Ok(t) => {
                let ghost before = out.deep_view();
                let ghost one = t.deep_view();
                out.push(t);
                assert(out.deep_view() =~= before.push(one));
            },
            Err(e) => {
                proof {
                    lemma_all_taps_fails(cv, i + 1, root@, targets.deep_view(), env@);
                }
                return Err(e);
            },
        }
        i += 1;
    }
    assert(cv.take(i as int) =~= cv);
    Ok(out)
}

/// The items that are new or changed, in order.
pub open spec fn changed_items(items: Seq<SourceItemView>, ctx: FetchContextView) -> Seq<
    SourceItemView,
>
    decreases items.len(),
{
    if items.len() == 0 {
        Seq::<SourceItemView>::empty()
    } else if unchanged(ctx, items.last().source_path, items.last().content_hash) {
        changed_items(items.drop_last(), ctx)
    } else {
        changed_items(items.drop_last(), ctx).push(items.last())
    }
}

/// Leaves out the items that did not change.
pub fn select_changed(items: &Vec<SourceItem>, ctx: &FetchContext) -> (r: Vec<SourceItem>)
    ensures
        r.deep_view() == changed_items(items.deep_view(), ctx.deep_view()),
{
    let ghost iv = items.deep_view();
    let ghost cv = ctx.deep_view();
    let mut out: Vec<SourceItem> = Vec::new();
    let mut i: usize = 0;
    assert(out.deep_view() =~= changed_items(iv.take(0), cv));
    while i < items.len()
        invariant
            i <= items@.len(),
            iv == items.deep_view(),
            cv == ctx.deep_view(),
            out.deep_view() == changed_items(iv.take(i as int), cv),
        decreases items@.len() - i,
    {
        let p = &items[i];
        proof {
            assert(iv.take(i + 1).drop_last() =~= iv.take(i as int));
            assert(iv.take(i + 1).last() == p.deep_view());
        }
        if !is_unchanged(ctx, p.source_path.as_str(), p.content_hash.as_str()) {
            let ghost before = out.deep_view();
            out.push(p.clone());
            assert(out.deep_view() =~= before.push(p.deep_view()));
        }
        i += 1;
    }
    assert(iv.take(i as int) =~= iv);
    out
}

/// An item is handed over exactly if it is among those fetched and is new or
/// changed; on a full run nothing is left out.
pub proof fn law_changed_items(items: Seq<SourceItemView>, ctx: FetchContextView, x: SourceItemView)
    ensures
        changed_items(items, ctx).contains(x) <==> items.contains(x) && !unchanged(
            ctx,
            x.source_path,
            x.content_hash,
        ),
        ctx.full ==> changed_items(items, ctx) == items,
    decreases items.len(),
{
    if items.len() > 0 {
        let head = items.drop_last();
        let kept = changed_items(head, ctx);
        law_changed_items(head, ctx, x);
        assert(head.push(items.last()) =~= items);
        if items.contains(x) && x != items.last() {
            let k = choose|k: int| 0 <= k < items.len() && items[k] == x;
            assert(head[k] == x);
        }
        if head.contains(x) {
            let k = choose|k: int| 0 <= k < head.len() && head[k] == x;
            assert(items[k] == x);
        }
        assert(items[items.len() - 1] == items.last());
        if !unchanged(ctx, items.last().source_path, items.last().content_hash) {
            let all = kept.push(items.last());
            if all.contains(x) && x != items.last() {
                let k = choose|k: int| 0 <= k < all.len() && all[k] == x;
                assert(kept[k] == x);
            }
            if kept.contains(x) {
                let k = choose|k: int| 0 <= k < kept.len() && kept[k] == x;
                assert(all[k] == x);
            }
            assert(all[kept.len() as int] == items.last());
        }
    } else {
        assert(changed_items(items, ctx) =~= items);
    }
}

/// A namespace suffix tells taps apart.
pub proof fn law_suffixes_differ(a: Seq<char>, b: Seq<char>)
    requires
        a != b,
    ensures
        suffix_of(a) != suffix_of(b),
{
    if suffix_of(a) == suffix_of(b) && suffix_of(a) is Some {
        let s = suffix_of(a)->0;
        assert(a =~= s.skip("--"@.len() as int));
        assert(b =~= s.skip("--"@.len() as int));
    }
}

/// A tap keeps the name it was configured under.
pub proof fn law_taps_keep_their_names(
    cfg: TapConfigView,
    root: Seq<char>,
    targets: Seq<Seq<char>>,
    env: Map<Seq<char>, Seq<char>>,
)
    ensures
        tap_of(cfg, root, targets, env) matches Ok(t) ==> tap_name(t) == cfg.name,
{
}

/// An item counts as unchanged exactly if its hash is the one stored for its path
/// and the run is not full: storing another hash, or none, makes it changed.
pub proof fn law_unchanged_means_stored(ctx: FetchContextView, path: Seq<char>, hash: Seq<char>)
    ensures
        ctx.full ==> !unchanged(ctx, path, hash),
        !ctx.stored_hashes.contains_key(path) ==> !unchanged(ctx, path, hash),
        !ctx.full ==> unchanged(
            FetchContextView { stored_hashes: ctx.stored_hashes.insert(path, hash), ..ctx },
            path,
            hash,
        ),
        forall|other: Seq<char>|
            other != hash ==> !#[trigger] unchanged(
                FetchContextView { stored_hashes: ctx.stored_hashes.insert(path, other), ..ctx },
                path,
                hash,
            ),
{
}

/// What a tap is built from: a command makes it a process under its own name, with
/// its own arguments and settings; without one, only the names of the built-in
/// taps are known. The linear and the notion tap need a key; where there is none,
/// the error names the variable to set.
pub proof fn law_taps_are_built_from_their_configuration(
    cfg: TapConfigView,
    root: Seq<char>,
    targets: Seq<Seq<char>>,
    env: Map<Seq<char>, Seq<char>>,
)
    ensures
        cfg.command matches Some(command) ==> match tap_of(cfg, root, targets, env) {
            Ok(BuiltTapView::Process(p)) => p.name == cfg.name && p.command == command && p.args
                == cfg.args && p.settings == cfg.settings,
            _ => false,
        },
        cfg.command is None ==> match tap_of(cfg, root, targets, env) {
            Ok(BuiltTapView::Process(_)) => false,
            Ok(BuiltTapView::Files(t)) => cfg.name == "files"@ && t.root == root,
            Ok(BuiltTapView::Linear(t)) => cfg.name == "linear"@ && linear::settings_of(
                cfg.settings.entries,
            ) == Ok::<_, LinearErrorView>(t.settings) && env.contains_key(t.settings.api_key_env)
                && t.api_key == env[t.settings.api_key_env],
            Ok(BuiltTapView::Notion(t)) => cfg.name == "notion"@ && t.targets == targets,
            Err(TapErrorView::NoLinearKey { variable }) => cfg.name == "linear"@
                && !env.contains_key(variable),
            Err(TapErrorView::NoNotionKey { variable }) => cfg.name == "notion"@,
            Err(TapErrorView::Unknown { name }) => name == cfg.name && name != "files"@ && name
                != "linear"@ && name != "notion"@,
            Err(TapErrorView::Linear(_)) => cfg.name == "linear"@,
            Err(TapErrorView::Notion(_)) => cfg.name == "notion"@,
            Err(TapErrorView::NotConfigured { .. }) => false,
        },
{
}

proof fn lemma_selected(configs: Seq<TapConfigView>, only: Option<Seq<char>>, c: TapConfigView)
    ensures
        selected(configs, only).contains(c) <==> configs.contains(c) && (only is None || only
            == Some(c.name)),
    decreases configs.len(),
{
    if configs.len() > 0 {
        let head = configs.drop_last();
        lemma_selected(head, only, c);
        let kept = selected(head, only);
        let all = selected(configs, only);
        assert(configs[configs.len() - 1] == configs.last());
        if head.contains(c) {
            let k = choose|k: int| 0 <= k < head.len() && head[k] == c;
            assert(configs[k] == c);
        }
        if configs.contains(c) && c != configs.last() {
            let k = choose|k: int| 0 <= k < configs.len() && configs[k] == c;
            assert(head[k] == c);
        }
        if kept.contains(c) {
            let k = choose|k: int| 0 <= k < kept.len() && kept[k] == c;
            assert(all[k] == c);
        }
        if only is None || only == Some(configs.last().name) {
            assert(all[kept.len() as int] == configs.last());
        }
        if all.contains(c) {
            let k = choose|k: int| 0 <= k < all.len() && all[k] == c;
            if k < kept.len() {
                assert(kept[k] == c);
            }
        }
    }
}

/// Without a choice every configured tap is built; with one, exactly those of the
/// chosen name, and where there is none the error tells the name and those that
/// are configured.
pub proof fn law_the_chosen_taps_are_built(
    configs: Seq<TapConfigView>,
    root: Seq<char>,
    only: Option<Seq<char>>,
    targets: Seq<Seq<char>>,
    env: Map<Seq<char>, Seq<char>>,
)
    ensures
        only is None ==> selected(configs, only) == configs,
        forall|c: TapConfigView| #[trigger]
            selected(configs, only).contains(c) <==> configs.contains(c) && (only is None || only
                == Some(c.name)),
        (only is Some && forall|k: int|
            0 <= k < configs.len() ==> Some((#[trigger] configs[k]).name) != only) ==> match taps_of(
            configs,
            root,
            only,
            targets,
            env,
        ) {
            Err(TapErrorView::NotConfigured { name, configured }) => Some(name) == only
                && configured.len() == configs.len() && forall|k: int|
                0 <= k < configs.len() ==> #[trigger] configured[k] == configs[k].name,
            _ => false,
        },
        taps_of(configs, root, only, targets, env) matches Ok(taps) ==> {
            let chosen = selected(configs, only);
            &&& taps.len() == chosen.len()
            &&& forall|k: int|
                0 <= k < taps.len() ==> tap_of(chosen[k], root, targets, env) == Ok::<
                    _,
                    TapErrorView,
                >(#[trigger] taps[k])
        },
{
    assert forall|c: TapConfigView| #[trigger]
        selected(configs, only).contains(c) <==> configs.contains(c) && (only is None || only
            == Some(c.name)) by {
        lemma_selected(configs, only, c);
    }
    if only is None {
        lemma_all_selected(configs);
    } else if forall|k: int| 0 <= k < configs.len() ==> Some((#[trigger] configs[k]).name) != only {
        let chosen = selected(configs, only);
        if chosen.len() > 0 {
            assert(chosen.contains(chosen[0]));
            let k = choose|k: int| 0 <= k < configs.len() && configs[k] == chosen[0];
            assert(Some(configs[k].name) != only);
        }
    }
    lemma_all_taps(selected(configs, only), root, targets, env);
}

proof fn lemma_all_selected(configs: Seq<TapConfigView>)
    ensures
        selected(configs, None) == configs,
    decreases configs.len(),
{
    if configs.len() > 0 {
        lemma_all_selected(configs.drop_last());
        assert(configs.drop_last().push(configs.last()) =~= configs);
    }
}

proof fn lemma_all_taps(
    configs: Seq<TapConfigView>,
    root: Seq<char>,
    targets: Seq<Seq<char>>,
    env: Map<Seq<char>, Seq<char>>,
)
    ensures
        all_taps(configs, root, targets, env) matches Ok(taps) ==> taps.len() == configs.len()
            && forall|k: int|
            0 <= k < taps.len() ==> tap_of(configs[k], root, targets, env) == Ok::<
                _,
                TapErrorView,
            >(#[trigger] taps[k]),
    decreases configs.len(),
{
    if configs.len() > 0 {
        let head = configs.drop_last();
        lemma_all_taps(head, root, targets, env);
        if let Ok(taps) = all_taps(configs, root, targets, env) {
            let before = all_taps(head, root, targets, env)->Ok_0;
            assert forall|k: int| 0 <= k < taps.len() implies tap_of(configs[k], root, targets, env)
                == Ok::<_, TapErrorView>(#[trigger] taps[k]) by {
                if k < before.len() {
                    assert(taps[k] == before[k]);
                    assert(configs[k] == head[k]);
                }
            }
        }
    }
}

/// The words of an error hold what it is about: the variable that is not set, the
/// name that is not known, or the name that is not configured and all those that
/// are.
pub proof fn law_tap_errors_name_what_they_are_about(e: TapErrorView)
    ensures
        match e {
            TapErrorView::NoLinearKey { variable } => occurs(tap_error_words(e), variable),
            TapErrorView::NoNotionKey { variable } => has_suffix(tap_error_words(e), variable),
            TapErrorView::Unknown { name } => occurs(tap_error_words(e), "'"@ + name + "'"@),
            TapErrorView::NotConfigured { name, configured } => occurs(
                tap_error_words(e),
                "'"@ + name + "'"@,
            ) && forall|k: int|
                0 <= k < configured.len() ==> occurs(tap_error_words(e), #[trigger] configured[k]),
            _ => true,
        },
{
    let w = tap_error_words(e);
    match e {
        TapErrorView::NoLinearKey { variable } => {
            lemma_part_between(
                "Linear API key not set: export "@,
                variable,
                " (or set the linear tap's settings.api_key_env)"@,
            );
        },
        TapErrorView::NoNotionKey { variable } => {
            lemma_part_at_end(
                "Notion API key not set: put it in the notion tap's settings.api_key, or export "@,
                variable,
            );
        },
        TapErrorView::Unknown { name } => {
            reveal_strlit("unknown built-in tap '");
            reveal_strlit("unknown built-in tap ");
            reveal_strlit("'");
            reveal_strlit("'; external taps must specify a 'command' field");
            reveal_strlit("; external taps must specify a 'command' field");
            let a = "unknown built-in tap "@;
            let b = "; external taps must specify a 'command' field"@;
            assert("unknown built-in tap '"@ =~= a + "'"@);
            assert("'; external taps must specify a 'command' field"@ =~= "'"@ + b);
            lemma_part_between(a, "'"@ + name + "'"@, b);
            assert(a + ("'"@ + name + "'"@) + b =~= w);
        },
        TapErrorView::NotConfigured { name, configured } => {
            reveal_strlit("tap '");
            reveal_strlit("tap ");
            reveal_strlit("'");
            reveal_strlit("' is not configured; configured taps: ");
            reveal_strlit(" is not configured; configured taps: ");
            let list = joined(configured, ", "@);
            let b = " is not configured; configured taps: "@ + list;
            assert("tap '"@ =~= "tap "@ + "'"@);
            assert("' is not configured; configured taps: "@ =~= "'"@
                + " is not configured; configured taps: "@);
            lemma_part_between("tap "@, "'"@ + name + "'"@, b);
            assert("tap "@ + ("'"@ + name + "'"@) + b =~= w);
            lemma_part_at_end("tap '"@ + name + "' is not configured; configured taps: "@, list);
            assert forall|k: int| 0 <= k < configured.len() implies occurs(
                w,
                #[trigger] configured[k],
            ) by {
                lemma_joined_holds(configured, ", "@, k);
                lemma_part_of_part(configured[k], list, w);
            }
        },
        _ => {},
    }
}

} // verus!
