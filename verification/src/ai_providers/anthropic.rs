//! The Anthropic summarizer: its settings, its request, and reading its reply.
use vstd::prelude::*;

use crate::config::summarizer::{summarizer_failure, SummarizerError};
use crate::config::SummarizerConfig;

verus! {

/// How many times a request is retried.
pub const MAX_RETRIES: usize = 3;

/// The longest reply asked for, in tokens.
pub const MAX_TOKENS: usize = 1024;

/// What is needed to call the Messages API.
#[derive(Debug)]
pub struct AnthropicSummarizer {
    pub api_key: String,
    pub model: String,
    pub base_url: String,
    pub max_retries: usize,
}

/// What a [`AnthropicSummarizer`] holds.
#[verifier::ext_equal]
pub struct AnthropicSummarizerView {
    pub api_key: Seq<char>,
    pub model: Seq<char>,
    pub base_url: Seq<char>,
    pub max_retries: usize,
}

impl DeepView for AnthropicSummarizer {
    type V = AnthropicSummarizerView;

    open spec fn deep_view(&self) -> AnthropicSummarizerView {
        AnthropicSummarizerView {
            api_key: self.api_key@,
            model: self.model@,
            base_url: self.base_url@,
            max_retries: self.max_retries,
        }
    }
}

impl Clone for AnthropicSummarizer {
    fn clone(&self) -> (r: Self)
        ensures
            r.deep_view() == self.deep_view(),
    {
        AnthropicSummarizer {
            api_key: self.api_key.clone(),
            model: self.model.clone(),
            base_url: self.base_url.clone(),
            max_retries: self.max_retries,
        }
    }
}

/// A reply held no text.
#[derive(Clone, Copy, PartialEq, Eq, Structural, Debug)]
pub struct NoText;

impl NoText {
    /// The error as text.
    pub fn message(self) -> (r: String)
        ensures
            r@ == "Anthropic API response contained no text content"@,
    {
        "Anthropic API response contained no text content".to_string()
    }
}

/// The first text among the blocks of a reply.
pub open spec fn first_text(blocks: Seq<Option<Seq<char>>>) -> Option<Seq<char>>
    decreases blocks.len(),
{
    if blocks.len() == 0 {
        None
    } else {
        match blocks[0] {
            Some(t) => Some(t),
            None => first_text(blocks.drop_first()),
        }
    }
}

/// The first text among the blocks of a reply.
pub fn extract_text(blocks: &Vec<Option<String>>) -> (r: Result<String, NoText>)
    ensures
        match r {
            Ok(t) => first_text(blocks.deep_view()) == Some(t@),
            Err(_) => first_text(blocks.deep_view()) is None,
        },
{
    let ghost bv = blocks.deep_view();
    let mut i: usize = 0;
    assert(bv.skip(0) =~= bv);
    while i < blocks.len()
        invariant
            i <= blocks@.len(),
            bv == blocks.deep_view(),
            first_text(bv) == first_text(bv.skip(i as int)),
        decreases blocks@.len() - i,
    {
        proof {
            assert(bv.skip(i as int)[0] == blocks@[i as int].deep_view());
            assert(bv.skip(i as int).drop_first() =~= bv.skip(i + 1));
        }
        if let Some(t) = &blocks[i] {
            return Ok(t.clone());
        }
        i += 1;
    }
    Err(NoText)
}

impl AnthropicSummarizer {
    /// Checks the configuration and takes what is needed from it.
    pub fn new(config: &SummarizerConfig) -> (r: Result<AnthropicSummarizer, SummarizerError>)
        ensures
            match r {
                Ok(s) => summarizer_failure(config.deep_view()) is None && s.deep_view() == (
                AnthropicSummarizerView {
                    api_key: config.api_key@,
                    model: config.model@,
                    base_url: "https://api.anthropic.com"@,
                    max_retries: MAX_RETRIES,
                }),
                Err(e) => summarizer_failure(config.deep_view()) == Some(e),
            },
    {
        match config.validate() {
            Ok(_) => Ok(
                AnthropicSummarizer {
                    api_key: config.api_key.clone(),
                    model: config.model.clone(),
                    base_url: "https://api.anthropic.com".to_string(),
                    max_retries: MAX_RETRIES,
                },
            ),
            Err(e) => Err(e),
        }
    }

    /// The same, calling another server.
    pub fn with_base_url(self, url: &str) -> (r: AnthropicSummarizer)
        ensures
            r.deep_view() == (AnthropicSummarizerView { base_url: url@, ..self.deep_view() }),
    {
        AnthropicSummarizer {
            api_key: self.api_key,
            model: self.model,
            base_url: url.to_string(),
            max_retries: self.max_retries,
        }
    }

    /// The URL of the Messages API.
    pub fn messages_url(&self) -> (r: String)
        ensures
            r@ == self.base_url@ + "/v1/messages"@,
    {
        let mut r = self.base_url.clone();
        r.append("/v1/messages");
        r
    }

    /// The model that writes the summaries.
    pub fn model_name(&self) -> (r: &str)
        ensures
            r@ == self.model@,
    {
        self.model.as_str()
    }
}

/// The text of a reply is that of its first block that has one.
pub proof fn law_the_first_text_is_taken(blocks: Seq<Option<Seq<char>>>, k: int)
    requires
        0 <= k <= blocks.len(),
        forall|j: int| 0 <= j < k ==> (#[trigger] blocks[j]) is None,
    ensures
        k < blocks.len() && blocks[k] is Some ==> first_text(blocks) == blocks[k],
        k == blocks.len() ==> first_text(blocks) is None,
    decreases k,
{
    if k > 0 {
        let rest = blocks.drop_first();
        assert(blocks[0] is None);
        assert forall|j: int| 0 <= j < k - 1 implies (#[trigger] rest[j]) is None by {
            assert(rest[j] == blocks[j + 1]);
        }
        law_the_first_text_is_taken(rest, k - 1);
    }
}

} // verus!
