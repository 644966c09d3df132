//! Summaries of files and symbols: what is asked of a summarizer.
use vstd::prelude::*;

use crate::ai_providers::anthropic::{AnthropicSummarizer, AnthropicSummarizerView, MAX_RETRIES};
use crate::ai_providers::{all_providers, names_text, offering, offers, supports, Capability};
use crate::chunk::{Import, ImportView};
use crate::config::summarizer::{summarizer_failure, SummarizerError};
use crate::config::{SummarizerConfig, SummarizerConfigView};
use crate::text::joined;

pub mod prompts;
pub mod rollup;

verus! {

/// What a summarizer is told about a file.
#[derive(Debug)]
pub struct FileSummaryInput {
    /// The path is itself domain context.
    pub file_path: String,
    /// Full file content.
    pub content: String,
    /// Imports, a sign of cross-file relationships.
    pub imports: Vec<Import>,
    /// Language name.
    pub language: String,
}

/// What a [`FileSummaryInput`] holds.
#[verifier::ext_equal]
pub struct FileSummaryInputView {
    pub file_path: Seq<char>,
    pub content: Seq<char>,
    pub imports: Seq<ImportView>,
    pub language: Seq<char>,
}

impl DeepView for FileSummaryInput {
    type V = FileSummaryInputView;

    open spec fn deep_view(&self) -> FileSummaryInputView {
        FileSummaryInputView {
            file_path: self.file_path@,
            content: self.content@,
            imports: self.imports.deep_view(),
            language: self.language@,
        }
    }
}

impl Clone for FileSummaryInput {
    fn clone(&self) -> (r: Self)
        ensures
            r.deep_view() == self.deep_view(),
    {
        FileSummaryInput {
            file_path: self.file_path.clone(),
            content: self.content.clone(),
            imports: self.imports.clone(),
            language: self.language.clone(),
        }
    }
}

/// What a summarizer is told about a symbol: its body, and the summary of its
/// file as context.
#[derive(Debug)]
pub struct SymbolSummaryInput {
    pub symbol_name: String,
    pub symbol_kind: String,
    /// Full text of the symbol.
    pub body: String,
    pub signature: Option<String>,
    pub doc_comment: Option<String>,
    /// File this symbol belongs to.
    pub file_path: String,
    /// The summary of the file.
    pub file_summary: String,
}

/// What a [`SymbolSummaryInput`] holds.
#[verifier::ext_equal]
pub struct SymbolSummaryInputView {
    pub symbol_name: Seq<char>,
    pub symbol_kind: Seq<char>,
    pub body: Seq<char>,
    pub signature: Option<Seq<char>>,
    pub doc_comment: Option<Seq<char>>,
    pub file_path: Seq<char>,
    pub file_summary: Seq<char>,
}

impl DeepView for SymbolSummaryInput {
    type V = SymbolSummaryInputView;

    open spec fn deep_view(&self) -> SymbolSummaryInputView {
        SymbolSummaryInputView {
            symbol_name: self.symbol_name@,
            symbol_kind: self.symbol_kind@,
            body: self.body@,
            signature: self.signature.deep_view(),
            doc_comment: self.doc_comment.deep_view(),
            file_path: self.file_path@,
            file_summary: self.file_summary@,
        }
    }
}

impl Clone for SymbolSummaryInput {
    fn clone(&self) -> (r: Self)
        ensures
            r.deep_view() == self.deep_view(),
    {
        SymbolSummaryInput {
            symbol_name: self.symbol_name.clone(),
            symbol_kind: self.symbol_kind.clone(),
            body: self.body.clone(),
            signature: self.signature.clone(),
            doc_comment: self.doc_comment.clone(),
            file_path: self.file_path.clone(),
            file_summary: self.file_summary.clone(),
        }
    }
}

/// Why there is no summarizer.
#[derive(Debug)]
pub enum BuildError {
    /// The provider does not summarize.
    NotASummarizer { provider: String, available: String },
    /// The configuration is not usable.
    Config(SummarizerError),
}

/// What a [`BuildError`] holds.
#[verifier::ext_equal]
pub enum BuildErrorView {
    NotASummarizer { provider: Seq<char>, available: Seq<char> },
    Config(SummarizerError),
}

impl DeepView for BuildError {
    type V = BuildErrorView;

    open spec fn deep_view(&self) -> BuildErrorView {
        match self {
            BuildError::NotASummarizer { provider, available } => BuildErrorView::NotASummarizer {
                provider: provider@,
                available: available@,
            },
            BuildError::Config(e) => BuildErrorView::Config(*e),
        }
    }
}

impl BuildError {
    /// The error as text.
    pub fn message(&self) -> (r: String)
        ensures
            r@ == match self.deep_view() {
                BuildErrorView::NotASummarizer { provider, available } => "provider '"@ + provider
                    + "' is not a valid summarizer; available summarizers: "@ + available,
                BuildErrorView::Config(_) =>
                    "ANTHROPIC_API_KEY is required when summarizer.provider=anthropic"@,
            },
    {
        match self {
            BuildError::NotASummarizer { provider, available } => {
                let mut r = "provider '".to_string();
                r.append(provider.as_str());
                r.append("' is not a valid summarizer; available summarizers: ");
                r.append(available.as_str());
                r
            },
            BuildError::Config(e) => e.message(),
        }
    }
}

/// The summarizer a configuration asks for, or why there is none.
pub open spec fn summarizer_for(c: SummarizerConfigView) -> Result<
    AnthropicSummarizerView,
    BuildErrorView,
> {
    if c.provider != "anthropic"@ {
        Err(
            BuildErrorView::NotASummarizer {
                provider: c.provider,
                available: joined(offering(all_providers(), Capability::Summarize), ", "@),
            },
        )
    } else if summarizer_failure(c) is Some {
        Err(BuildErrorView::Config(summarizer_failure(c)->0))
    } else {
        Ok(
            AnthropicSummarizerView {
                api_key: c.api_key,
                model: c.model,
                base_url: "https://api.anthropic.com"@,
                max_retries: MAX_RETRIES,
            },
        )
    }
}

/// Builds the summarizer: its provider has to summarize and the configuration
/// has to be usable.
pub fn build_summarizer(config: &SummarizerConfig) -> (r: Result<AnthropicSummarizer, BuildError>)
    ensures
        match r {
            Ok(s) => summarizer_for(config.deep_view()) == Ok::<
                AnthropicSummarizerView,
                BuildErrorView,
            >(s.deep_view()),
            Err(e) => summarizer_for(config.deep_view()) == Err::<
                AnthropicSummarizerView,
                BuildErrorView,
            >(e.deep_view()),
        },
{
    proof {
        lemma_summarizers(config.provider@);
    }
    if !supports(config.provider.as_str(), Capability::Summarize) {
        return Err(
            BuildError::NotASummarizer {
                provider: config.provider.clone(),
                available: names_text(Capability::Summarize),
            },
        );
    }
    match AnthropicSummarizer::new(config) {
        Ok(s) => Ok(s),
        Err(e) => Err(BuildError::Config(e)),
    }
}

proof fn lemma_summarizers(name: Seq<char>)
    ensures
        offers(all_providers(), name, Capability::Summarize) <==> name == "anthropic"@,
{
    let l = all_providers();
    assert(!l[0].capabilities.contains(Capability::Summarize));
    assert(!l[1].capabilities.contains(Capability::Summarize));
    assert(!l[2].capabilities.contains(Capability::Summarize));
    assert(l[3].capabilities[0] == Capability::Summarize);
    assert(l[3].name == "anthropic"@);
}

/// A summarizer is built exactly as the configuration says: with its key, which is
/// there, and its model; a provider that does not summarize is refused by its name.
pub proof fn law_summarizers_are_those_configured(c: SummarizerConfigView)
    ensures
        match summarizer_for(c) {
            Ok(s) => c.provider == "anthropic"@ && s.api_key == c.api_key && s.api_key.len() > 0
                && s.model == c.model,
            Err(BuildErrorView::NotASummarizer { provider, .. }) => provider == c.provider
                && provider != "anthropic"@,
            Err(BuildErrorView::Config(_)) => c.provider == "anthropic"@ && c.api_key.len() == 0,
        },
{
}

} // verus!
