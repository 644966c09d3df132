//! Summarizer configuration.
use vstd::prelude::*;

use crate::config::{
    chosen_text, resolve_text, text_source, Env, EnvView, FileConfig, FileConfigView,
    FileSummarizerConfig, FileSummarizerConfigView, Source, SourceView,
};
use crate::text::same;

verus! {

/// The summarizer settings, resolved.
#[derive(Debug)]
pub struct SummarizerConfig {
    pub provider: String,
    pub model: String,
    pub api_key: String,
}

/// What a [`SummarizerConfig`] holds.
#[verifier::ext_equal]
pub struct SummarizerConfigView {
    pub provider: Seq<char>,
    pub model: Seq<char>,
    pub api_key: Seq<char>,
}

impl DeepView for SummarizerConfig {
    type V = SummarizerConfigView;

    open spec fn deep_view(&self) -> SummarizerConfigView {
        SummarizerConfigView {
            provider: self.provider@,
            model: self.model@,
            api_key: self.api_key@,
        }
    }
}

impl Clone for SummarizerConfig {
    fn clone(&self) -> (r: Self)
        ensures
            r.deep_view() == self.deep_view(),
    {
        SummarizerConfig {
            provider: self.provider.clone(),
            model: self.model.clone(),
            api_key: self.api_key.clone(),
        }
    }
}

/// Where its values came from.
#[derive(Debug)]
pub struct SummarizerSources {
    pub provider: Source,
    pub model: Source,
    pub api_key: Source,
}

/// What a [`SummarizerSources`] holds.
#[verifier::ext_equal]
pub struct SummarizerSourcesView {
    pub provider: SourceView,
    pub model: SourceView,
    pub api_key: SourceView,
}

impl DeepView for SummarizerSources {
    type V = SummarizerSourcesView;

    open spec fn deep_view(&self) -> SummarizerSourcesView {
        SummarizerSourcesView {
            provider: self.provider.deep_view(),
            model: self.model.deep_view(),
            api_key: self.api_key.deep_view(),
        }
    }
}

impl Clone for SummarizerSources {
    fn clone(&self) -> (r: Self)
        ensures
            r.deep_view() == self.deep_view(),
    {
        SummarizerSources {
            provider: self.provider.clone(),
            model: self.model.clone(),
            api_key: self.api_key.clone(),
        }
    }
}

/// The file's `summarizer` block.
pub open spec fn file_summarizer(file: Option<FileConfigView>) -> Option<FileSummarizerConfigView> {
    match file {
        Some(f) => f.summarizer,
        None => None,
    }
}

/// What the file says of `provider`.
pub open spec fn file_provider(file: Option<FileConfigView>) -> Option<Seq<char>> {
    match file_summarizer(file) {
        Some(b) => b.provider,
        None => None,
    }
}

/// What the file says of `model`.
pub open spec fn file_model(file: Option<FileConfigView>) -> Option<Seq<char>> {
    match file_summarizer(file) {
        Some(b) => b.model,
        None => None,
    }
}

/// What the file says of `api_key`.
pub open spec fn file_api_key(file: Option<FileConfigView>) -> Option<Seq<char>> {
    match file_summarizer(file) {
        Some(b) => b.anthropic_api_key,
        None => None,
    }
}


/// The values of a file and an environment.
pub open spec fn summarizer_of(file: Option<FileConfigView>, env: EnvView) -> SummarizerConfigView {
    SummarizerConfigView {
        provider: chosen_text(
            env.vars,
            "WDPKR_SUMMARIZER_PROVIDER"@,
            file_provider(file),
            "anthropic"@,
        ),
        model: chosen_text(
            env.vars,
            "WDPKR_SUMMARIZER_MODEL"@,
            file_model(file),
            env.default_model,
        ),
        api_key: chosen_text(env.vars, "ANTHROPIC_API_KEY"@, file_api_key(file), ""@),
    }
}

/// Where they come from.
pub open spec fn summarizer_sources_of(
    file: Option<FileConfigView>,
    env: EnvView,
) -> SummarizerSourcesView {
    SummarizerSourcesView {
        provider: text_source(env.vars, "WDPKR_SUMMARIZER_PROVIDER"@, file_provider(file)),
        model: text_source(env.vars, "WDPKR_SUMMARIZER_MODEL"@, file_model(file)),
        api_key: text_source(env.vars, "ANTHROPIC_API_KEY"@, file_api_key(file)),
    }
}

impl SummarizerConfig {
    /// The values alone.
    pub fn from_env(file: &Option<FileConfig>, env: &Env) -> (r: SummarizerConfig)
        ensures
            r.deep_view() == summarizer_of(file.deep_view(), env.deep_view()),
    {
        SummarizerConfig::resolve(file, env).0
    }

    /// Resolves every field and remembers its source.
    pub fn resolve(file: &Option<FileConfig>, env: &Env) -> (
        r: (SummarizerConfig, SummarizerSources)
    )
        ensures
            r.0.deep_view() == summarizer_of(file.deep_view(), env.deep_view()),
            r.1.deep_view() == summarizer_sources_of(file.deep_view(), env.deep_view()),
    {
        let block: FileSummarizerConfig = match file {
            Some(f) => match &f.summarizer {
                Some(b) => b.clone(),
                None => FileSummarizerConfig::default(),
            },
            None => FileSummarizerConfig::default(),
        };
        assert(block.provider.deep_view() == file_provider(file.deep_view()));
        assert(block.model.deep_view() == file_model(file.deep_view()));
        assert(block.anthropic_api_key.deep_view() == file_api_key(file.deep_view()));
        let (provider, provider_source) = resolve_text(
            env,
            "WDPKR_SUMMARIZER_PROVIDER",
            &block.provider,
            "anthropic",
        );
        let (model, model_source) = resolve_text(
            env,
            "WDPKR_SUMMARIZER_MODEL",
            &block.model,
            env.default_model.as_str(),
        );
        let (api_key, api_key_source) = resolve_text(
            env,
            "ANTHROPIC_API_KEY",
            &block.anthropic_api_key,
            "",
        );
        (
            SummarizerConfig {
                provider,
                model,
                api_key,
            },
            SummarizerSources {
                provider: provider_source,
                model: model_source,
                api_key: api_key_source,
            },
        )
    }

    /// Whether the provider's credential is there. Asked before the provider is
    /// called, not when the configuration is read.
    pub fn validate(&self) -> (r: Result<(), SummarizerError>)
        ensures
            match r {
                Ok(_) => summarizer_failure(self.deep_view()) is None,
                Err(e) => summarizer_failure(self.deep_view()) == Some(e),
            },
    {
        if same(self.provider.as_str(), "anthropic") && self.api_key.as_str().unicode_len() == 0 {
            return Err(SummarizerError::NoAnthropicKey);
        }
        Ok(())
    }
}

/// Why a summarizer configuration is not usable.
#[derive(Clone, Copy, PartialEq, Eq, Structural, Debug)]
pub enum SummarizerError {
    NoAnthropicKey,
}

impl SummarizerError {
    /// The error as text.
    pub fn message(self) -> (r: String)
        ensures
            r@ == "ANTHROPIC_API_KEY is required when summarizer.provider=anthropic"@,
    {
        "ANTHROPIC_API_KEY is required when summarizer.provider=anthropic".to_string()
    }
}

/// Why a configuration is not usable, if it is not.
pub open spec fn summarizer_failure(c: SummarizerConfigView) -> Option<SummarizerError> {
    if c.provider == "anthropic"@ && c.api_key.len() == 0 {
        Some(SummarizerError::NoAnthropicKey)
    } else {
        None
    }
}

} // verus!
