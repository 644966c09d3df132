//! Embedder configuration.
use vstd::prelude::*;

use crate::config::{
    chosen_count, chosen_text, count_source, resolve_count, resolve_text, text_source, Env,
    EnvView, FileConfig, FileConfigView, FileEmbedConfig, FileEmbedConfigView, Source,
    SourceView,
};
use crate::text::same;

verus! {

/// The embedder settings, resolved.
#[derive(Debug)]
pub struct EmbedConfig {
    pub provider: String,
    pub model: String,
    pub batch_size: usize,
    /// What is embedded: `summary` or `docstring`.
    pub embed_mode: String,
    pub voyage_api_key: String,
    pub openai_api_key: String,
    pub ollama_host: String,
}

/// What a [`EmbedConfig`] holds.
#[verifier::ext_equal]
pub struct EmbedConfigView {
    pub provider: Seq<char>,
    pub model: Seq<char>,
    pub batch_size: usize,
    pub embed_mode: Seq<char>,
    pub voyage_api_key: Seq<char>,
    pub openai_api_key: Seq<char>,
    pub ollama_host: Seq<char>,
}

impl DeepView for EmbedConfig {
    type V = EmbedConfigView;

    open spec fn deep_view(&self) -> EmbedConfigView {
        EmbedConfigView {
            provider: self.provider@,
            model: self.model@,
            batch_size: self.batch_size,
            embed_mode: self.embed_mode@,
            voyage_api_key: self.voyage_api_key@,
            openai_api_key: self.openai_api_key@,
            ollama_host: self.ollama_host@,
        }
    }
}

impl Clone for EmbedConfig {
    fn clone(&self) -> (r: Self)
        ensures
            r.deep_view() == self.deep_view(),
    {
        EmbedConfig {
            provider: self.provider.clone(),
            model: self.model.clone(),
            batch_size: self.batch_size,
            embed_mode: self.embed_mode.clone(),
            voyage_api_key: self.voyage_api_key.clone(),
            openai_api_key: self.openai_api_key.clone(),
            ollama_host: self.ollama_host.clone(),
        }
    }
}

/// Where its values came from.
#[derive(Debug)]
pub struct EmbedSources {
    pub provider: Source,
    pub model: Source,
    pub batch_size: Source,
    pub embed_mode: Source,
    pub voyage_api_key: Source,
    pub openai_api_key: Source,
    pub ollama_host: Source,
}

/// What a [`EmbedSources`] holds.
#[verifier::ext_equal]
pub struct EmbedSourcesView {
    pub provider: SourceView,
    pub model: SourceView,
    pub batch_size: SourceView,
    pub embed_mode: SourceView,
    pub voyage_api_key: SourceView,
    pub openai_api_key: SourceView,
    pub ollama_host: SourceView,
}

impl DeepView for EmbedSources {
    type V = EmbedSourcesView;

    open spec fn deep_view(&self) -> EmbedSourcesView {
        EmbedSourcesView {
            provider: self.provider.deep_view(),
            model: self.model.deep_view(),
            batch_size: self.batch_size.deep_view(),
            embed_mode: self.embed_mode.deep_view(),
            voyage_api_key: self.voyage_api_key.deep_view(),
            openai_api_key: self.openai_api_key.deep_view(),
            ollama_host: self.ollama_host.deep_view(),
        }
    }
}

impl Clone for EmbedSources {
    fn clone(&self) -> (r: Self)
        ensures
            r.deep_view() == self.deep_view(),
    {
        EmbedSources {
            provider: self.provider.clone(),
            model: self.model.clone(),
            batch_size: self.batch_size.clone(),
            embed_mode: self.embed_mode.clone(),
            voyage_api_key: self.voyage_api_key.clone(),
            openai_api_key: self.openai_api_key.clone(),
            ollama_host: self.ollama_host.clone(),
        }
    }
}

/// The file's `embedder` block.
pub open spec fn file_embedder(file: Option<FileConfigView>) -> Option<FileEmbedConfigView> {
    match file {
        Some(f) => f.embedder,
        None => None,
    }
}

/// What the file says of `provider`.
pub open spec fn file_provider(file: Option<FileConfigView>) -> Option<Seq<char>> {
    match file_embedder(file) {
        Some(b) => b.provider,
        None => None,
    }
}

/// What the file says of `model`.
pub open spec fn file_model(file: Option<FileConfigView>) -> Option<Seq<char>> {
    match file_embedder(file) {
        Some(b) => b.model,
        None => None,
    }
}

/// What the file says of `batch_size`.
pub open spec fn file_batch_size(file: Option<FileConfigView>) -> Option<usize> {
    match file_embedder(file) {
        Some(b) => b.batch_size,
        None => None,
    }
}

/// What the file says of `embed_mode`.
pub open spec fn file_embed_mode(file: Option<FileConfigView>) -> Option<Seq<char>> {
    match file_embedder(file) {
        Some(b) => b.embed_mode,
        None => None,
    }
}

/// What the file says of `voyage_api_key`.
pub open spec fn file_voyage_api_key(file: Option<FileConfigView>) -> Option<Seq<char>> {
    match file_embedder(file) {
        Some(b) => b.voyage_api_key,
        None => None,
    }
}

/// What the file says of `openai_api_key`.
pub open spec fn file_openai_api_key(file: Option<FileConfigView>) -> Option<Seq<char>> {
    match file_embedder(file) {
        Some(b) => b.openai_api_key,
        None => None,
    }
}

/// What the file says of `ollama_host`.
pub open spec fn file_ollama_host(file: Option<FileConfigView>) -> Option<Seq<char>> {
    match file_embedder(file) {
        Some(b) => b.ollama_host,
        None => None,
    }
}

/// The model to use with a provider where none is configured.
pub open spec fn model_for(provider: Seq<char>) -> Seq<char> {
    if provider == "ollama"@ {
        "nomic-embed-text"@
    } else if provider == "openai"@ {
        "text-embedding-3-large"@
    } else {
        "voyage-code-3"@
    }
}

fn default_model(provider: &str) -> (r: &'static str)
    ensures
        r@ == model_for(provider@),
{
    if same(provider, "ollama") {
        "nomic-embed-text"
    } else if same(provider, "openai") {
        "text-embedding-3-large"
    } else {
        "voyage-code-3"
    }
}

/// The values of a file and an environment.
pub open spec fn embed_of(file: Option<FileConfigView>, env: EnvView) -> EmbedConfigView {
    EmbedConfigView {
        provider: chosen_text(env.vars, "WDPKR_EMBED_PROVIDER"@, file_provider(file), "voyage"@),
        model: chosen_text(
            env.vars,
            "WDPKR_EMBED_MODEL"@,
            file_model(file),
            model_for(
                chosen_text(env.vars, "WDPKR_EMBED_PROVIDER"@, file_provider(file), "voyage"@),
            ),
        ),
        batch_size: chosen_count(env.vars, "WDPKR_EMBED_BATCH_SIZE"@, file_batch_size(file), 64),
        embed_mode: chosen_text(env.vars, "WDPKR_EMBED_MODE"@, file_embed_mode(file), "summary"@),
        voyage_api_key: chosen_text(env.vars, "VOYAGE_API_KEY"@, file_voyage_api_key(file), ""@),
        openai_api_key: chosen_text(env.vars, "OPENAI_API_KEY"@, file_openai_api_key(file), ""@),
        ollama_host: chosen_text(
            env.vars,
            "OLLAMA_HOST"@,
            file_ollama_host(file),
            "http://localhost:11434"@,
        ),
    }
}

/// Where they come from.
pub open spec fn embed_sources_of(file: Option<FileConfigView>, env: EnvView) -> EmbedSourcesView {
    EmbedSourcesView {
        provider: text_source(env.vars, "WDPKR_EMBED_PROVIDER"@, file_provider(file)),
        model: text_source(env.vars, "WDPKR_EMBED_MODEL"@, file_model(file)),
        batch_size: count_source(env.vars, "WDPKR_EMBED_BATCH_SIZE"@, file_batch_size(file)),
        embed_mode: text_source(env.vars, "WDPKR_EMBED_MODE"@, file_embed_mode(file)),
        voyage_api_key: text_source(env.vars, "VOYAGE_API_KEY"@, file_voyage_api_key(file)),
        openai_api_key: text_source(env.vars, "OPENAI_API_KEY"@, file_openai_api_key(file)),
        ollama_host: text_source(env.vars, "OLLAMA_HOST"@, file_ollama_host(file)),
    }
}

impl EmbedConfig {
    /// The values alone.
    pub fn from_env(file: &Option<FileConfig>, env: &Env) -> (r: EmbedConfig)
        ensures
            r.deep_view() == embed_of(file.deep_view(), env.deep_view()),
    {
        EmbedConfig::resolve(file, env).0
    }

    /// Resolves every field and remembers its source.
    pub fn resolve(file: &Option<FileConfig>, env: &Env) -> (r: (EmbedConfig, EmbedSources))
        ensures
            r.0.deep_view() == embed_of(file.deep_view(), env.deep_view()),
            r.1.deep_view() == embed_sources_of(file.deep_view(), env.deep_view()),
    {
        let block: FileEmbedConfig = match file {
            Some(f) => match &f.embedder {
                Some(b) => b.clone(),
                None => FileEmbedConfig::default(),
            },
            None => FileEmbedConfig::default(),
        };
        assert(block.provider.deep_view() == file_provider(file.deep_view()));
        assert(block.model.deep_view() == file_model(file.deep_view()));
        assert(block.batch_size.deep_view() == file_batch_size(file.deep_view()));
        assert(block.embed_mode.deep_view() == file_embed_mode(file.deep_view()));
        assert(block.voyage_api_key.deep_view() == file_voyage_api_key(file.deep_view()));
        assert(block.openai_api_key.deep_view() == file_openai_api_key(file.deep_view()));
        assert(block.ollama_host.deep_view() == file_ollama_host(file.deep_view()));
        let (provider, provider_source) = resolve_text(
            env,
            "WDPKR_EMBED_PROVIDER",
            &block.provider,
            "voyage",
        );
        let (model, model_source) = resolve_text(
            env,
            "WDPKR_EMBED_MODEL",
            &block.model,
            default_model(provider.as_str()),
        );
        let (batch_size, batch_size_source) = resolve_count(
            env,
            "WDPKR_EMBED_BATCH_SIZE",
            block.batch_size,
            64,
        );
        let (embed_mode, embed_mode_source) = resolve_text(
            env,
            "WDPKR_EMBED_MODE",
            &block.embed_mode,
            "summary",
        );
        let (voyage_api_key, voyage_api_key_source) = resolve_text(
            env,
            "VOYAGE_API_KEY",
            &block.voyage_api_key,
            "",
        );
        let (openai_api_key, openai_api_key_source) = resolve_text(
            env,
            "OPENAI_API_KEY",
            &block.openai_api_key,
            "",
        );
        let (ollama_host, ollama_host_source) = resolve_text(
            env,
            "OLLAMA_HOST",
            &block.ollama_host,
            "http://localhost:11434",
        );
        (
            EmbedConfig {
                provider,
                model,
                batch_size,
                embed_mode,
                voyage_api_key,
                openai_api_key,
                ollama_host,
            },
            EmbedSources {
                provider: provider_source,
                model: model_source,
                batch_size: batch_size_source,
                embed_mode: embed_mode_source,
                voyage_api_key: voyage_api_key_source,
                openai_api_key: openai_api_key_source,
                ollama_host: ollama_host_source,
            },
        )
    }

    /// Whether the mode is known and the provider's credential is there. Asked
    /// before the provider is called, not when the configuration is read.
    pub fn validate(&self) -> (r: Result<(), EmbedError>)
        ensures
            match r {
                Ok(_) => embed_failure(self.deep_view()) is None,
                Err(e) => embed_failure(self.deep_view()) == Some(e.deep_view()),
            },
    {
        if !same(self.embed_mode.as_str(), "summary") && !same(
            self.embed_mode.as_str(),
            "docstring",
        ) {
            return Err(EmbedError::UnknownMode { given: self.embed_mode.clone() });
        }
        if same(self.provider.as_str(), "voyage") && self.voyage_api_key.as_str().unicode_len()
            == 0 {
            return Err(EmbedError::NoVoyageKey);
        }
        if same(self.provider.as_str(), "openai") && self.openai_api_key.as_str().unicode_len()
            == 0 {
            return Err(EmbedError::NoOpenAiKey);
        }
        Ok(())
    }
}

/// Why an embedder configuration is not usable.
#[derive(Debug)]
pub enum EmbedError {
    UnknownMode { given: String },
    NoVoyageKey,
    NoOpenAiKey,
}

/// What an [`EmbedError`] holds.
#[verifier::ext_equal]
pub enum EmbedErrorView {
    UnknownMode { given: Seq<char> },
    NoVoyageKey,
    NoOpenAiKey,
}

impl DeepView for EmbedError {
    type V = EmbedErrorView;

    open spec fn deep_view(&self) -> EmbedErrorView {
        match self {
            EmbedError::UnknownMode { given } => EmbedErrorView::UnknownMode { given: given@ },
            EmbedError::NoVoyageKey => EmbedErrorView::NoVoyageKey,
            EmbedError::NoOpenAiKey => EmbedErrorView::NoOpenAiKey,
        }
    }
}

/// An error in words.
pub open spec fn embed_error_words(e: EmbedErrorView) -> Seq<char> {
    match e {
        EmbedErrorView::UnknownMode { given } =>
            "embedder.embed_mode must be 'summary' or 'docstring', got '"@ + given + "'"@,
        EmbedErrorView::NoVoyageKey =>
            "VOYAGE_API_KEY is required when embedder.provider=voyage"@,
        EmbedErrorView::NoOpenAiKey =>
            "OPENAI_API_KEY is required when embedder.provider=openai"@,
    }
}

impl EmbedError {
    /// The error as text.
    pub fn message(&self) -> (r: String)
        ensures
            r@ == embed_error_words(self.deep_view()),
    {
        match self {
            EmbedError::UnknownMode { given } => {
                let mut r =
                    "embedder.embed_mode must be 'summary' or 'docstring', got '".to_string();
                r.append(given.as_str());
                r.append("'");
                r
            },
            EmbedError::NoVoyageKey =>
                "VOYAGE_API_KEY is required when embedder.provider=voyage".to_string(),
            EmbedError::NoOpenAiKey =>
                "OPENAI_API_KEY is required when embedder.provider=openai".to_string(),
        }
    }
}

/// Why a configuration is not usable, if it is not.
pub open spec fn embed_failure(c: EmbedConfigView) -> Option<EmbedErrorView> {
    if c.embed_mode != "summary"@ && c.embed_mode != "docstring"@ {
        Some(EmbedErrorView::UnknownMode { given: c.embed_mode })
    } else if c.provider == "voyage"@ && c.voyage_api_key.len() == 0 {
        Some(EmbedErrorView::NoVoyageKey)
    } else if c.provider == "openai"@ && c.openai_api_key.len() == 0 {
        Some(EmbedErrorView::NoOpenAiKey)
    } else {
        None
    }
}

} // verus!
