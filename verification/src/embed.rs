//! Embedders: who they are and which one a configuration asks for.
use vstd::prelude::*;

use crate::ai_providers::voyage::{dimension_of, VoyageEmbedder, VoyageEmbedderView};
use crate::ai_providers::{all_providers, names_text, offering, offers, supports, Capability};
use crate::config::embed::{embed_error_words, embed_failure, EmbedError, EmbedErrorView};
use crate::config::{EmbedConfig, EmbedConfigView};
use crate::text::{joined, same};

verus! {

/// How an embedder is recorded in an index: its provider and its model.
pub open spec fn identity_of(provider: Seq<char>, model: Seq<char>) -> Seq<char> {
    provider + "/"@ + model
}

/// How an embedder is recorded in an index.
pub fn embedder_identity(provider_name: &str, model_name: &str) -> (r: String)
    ensures
        r@ == identity_of(provider_name@, model_name@),
{
    let mut r = provider_name.to_string();
    r.append("/");
    r.append(model_name);
    r
}

/// The embedder a configuration asks for.
#[derive(Debug)]
pub enum EmbedderChoice {
    Voyage(VoyageEmbedder),
    /// A local Ollama server, which has to be asked for its dimension.
    Ollama,
    OpenAi,
}

/// What an [`EmbedderChoice`] holds.
#[verifier::ext_equal]
pub enum EmbedderChoiceView {
    Voyage(VoyageEmbedderView),
    Ollama,
    OpenAi,
}

impl DeepView for EmbedderChoice {
    type V = EmbedderChoiceView;

    open spec fn deep_view(&self) -> EmbedderChoiceView {
        match self {
            EmbedderChoice::Voyage(v) => EmbedderChoiceView::Voyage(v.deep_view()),
            EmbedderChoice::Ollama => EmbedderChoiceView::Ollama,
            EmbedderChoice::OpenAi => EmbedderChoiceView::OpenAi,
        }
    }
}

/// Why there is no embedder.
#[derive(Debug)]
pub enum EmbedderError {
    /// The configuration is not usable.
    Config(EmbedError),
    /// The provider does not embed.
    NotAnEmbedder { provider: String, available: String },
}

/// What an [`EmbedderError`] holds.
#[verifier::ext_equal]
pub enum EmbedderErrorView {
    Config(EmbedErrorView),
    NotAnEmbedder { provider: Seq<char>, available: Seq<char> },
}

impl DeepView for EmbedderError {
    type V = EmbedderErrorView;

    open spec fn deep_view(&self) -> EmbedderErrorView {
        match self {
            EmbedderError::Config(e) => EmbedderErrorView::Config(e.deep_view()),
            EmbedderError::NotAnEmbedder { provider, available } =>
                EmbedderErrorView::NotAnEmbedder {
                provider: provider@,
                available: available@,
            },
        }
    }
}

impl EmbedderError {
    /// The error as text.
    pub fn message(&self) -> (r: String)
        ensures
            r@ == match self.deep_view() {
                EmbedderErrorView::Config(e) => embed_error_words(e),
                EmbedderErrorView::NotAnEmbedder { provider, available } => "provider '"@ + provider
                    + "' is not a valid embedder; available embedders: "@ + available,
            },
    {
        match self {
            EmbedderError::Config(e) => e.message(),
            EmbedderError::NotAnEmbedder { provider, available } => {
                let mut r = "provider '".to_string();
                r.append(provider.as_str());
                r.append("' is not a valid embedder; available embedders: ");
                r.append(available.as_str());
                r
            },
        }
    }
}

/// The embedder a configuration asks for, or why there is none.
pub open spec fn embedder_of(c: EmbedConfigView) -> Result<EmbedderChoiceView, EmbedderErrorView> {
    if embed_failure(c) is Some {
        Err(EmbedderErrorView::Config(embed_failure(c)->0))
    } else if c.provider == "voyage"@ {
        Ok(
            EmbedderChoiceView::Voyage(
                VoyageEmbedderView {
                    api_key: c.voyage_api_key,
                    model: c.model,
                    dimension: dimension_of(c.model),
                    max_tokens: 16_000,
                },
            ),
        )
    } else if c.provider == "ollama"@ {
        Ok(EmbedderChoiceView::Ollama)
    } else if c.provider == "openai"@ {
        Ok(EmbedderChoiceView::OpenAi)
    } else {
        Err(
            EmbedderErrorView::NotAnEmbedder {
                provider: c.provider,
                available: joined(offering(all_providers(), Capability::Embed), ", "@),
            },
        )
    }
}

/// Chooses the embedder: the configuration has to be usable and its provider
/// has to embed.
pub fn build_embedder(config: &EmbedConfig) -> (r: Result<EmbedderChoice, EmbedderError>)
    ensures
        match r {
            Ok(c) => embedder_of(config.deep_view()) == Ok::<EmbedderChoiceView, EmbedderErrorView>(
                c.deep_view(),
            ),
            Err(e) => embedder_of(config.deep_view()) == Err::<
                EmbedderChoiceView,
                EmbedderErrorView,
            >(e.deep_view()),
        },
{
    if let Err(e) = config.validate() {
        return Err(EmbedderError::Config(e));
    }
    proof {
        lemma_embedders(config.provider@);
    }
    if supports(config.provider.as_str(), Capability::Embed) {
        if same(config.provider.as_str(), "voyage") {
            if let Ok(v) = VoyageEmbedder::new(config) {
                return Ok(EmbedderChoice::Voyage(v));
            }
        } else if same(config.provider.as_str(), "ollama") {
            return Ok(EmbedderChoice::Ollama);
        } else {
            return Ok(EmbedderChoice::OpenAi);
        }
    }
    Err(
        EmbedderError::NotAnEmbedder {
            provider: config.provider.clone(),
            available: names_text(Capability::Embed),
        },
    )
}

proof fn lemma_embedders(name: Seq<char>)
    ensures
        offers(all_providers(), name, Capability::Embed) <==> (name == "voyage"@ || name
            == "ollama"@ || name == "openai"@),
{
    let l = all_providers();
    assert(l[0].capabilities[0] == Capability::Embed);
    assert(l[1].capabilities[0] == Capability::Embed);
    assert(l[2].capabilities[0] == Capability::Embed);
    assert(!l[3].capabilities.contains(Capability::Embed));
    assert(l[0].name == "voyage"@);
    assert(l[1].name == "openai"@);
    assert(l[2].name == "ollama"@);
}

/// Embedders of different providers and models have different identities, as
/// long as a provider's name holds no `/`.
pub proof fn law_identities_differ(p1: Seq<char>, m1: Seq<char>, p2: Seq<char>, m2: Seq<char>)
    requires
        !p1.contains('/'),
        !p2.contains('/'),
        identity_of(p1, m1) == identity_of(p2, m2),
    ensures
        p1 == p2,
        m1 == m2,
{
    reveal_strlit("/");
    let a = identity_of(p1, m1);
    let b = identity_of(p2, m2);
    assert(a[p1.len() as int] == '/');
    assert(b[p2.len() as int] == '/');
    if p1.len() < p2.len() {
        assert(p2[p1.len() as int] == b[p1.len() as int]);
    } else if p2.len() < p1.len() {
        assert(p1[p2.len() as int] == a[p2.len() as int]);
    } else {
        assert forall|i: int| 0 <= i < p1.len() implies p1[i] == p2[i] by {
            assert(a[i] == p1[i]);
            assert(b[i] == p2[i]);
        }
        assert(p1 =~= p2);
        assert(a.len() == p1.len() + 1 + m1.len());
        assert(b.len() == p2.len() + 1 + m2.len());
        assert forall|i: int| 0 <= i < m1.len() implies m1[i] == m2[i] by {
            assert(a[p1.len() + 1 + i] == m1[i]);
            assert(b[p2.len() + 1 + i] == m2[i]);
        }
        assert(m1 =~= m2);
    }
}

/// An embedder is built exactly as the configuration says: under the provider's own
/// key and model, and only where the configuration holds together; a provider that
/// does not embed is refused by its name.
pub proof fn law_embedders_are_those_configured(c: EmbedConfigView)
    ensures
        match embedder_of(c) {
            Ok(EmbedderChoiceView::Voyage(e)) => {
                &&& c.provider == "voyage"@
                &&& e.api_key == c.voyage_api_key
                &&& e.api_key.len() > 0
                &&& e.model == c.model
                &&& e.dimension == dimension_of(c.model)
            },
            Ok(EmbedderChoiceView::Ollama) => c.provider == "ollama"@,
            Ok(EmbedderChoiceView::OpenAi) => c.provider == "openai"@ && c.openai_api_key.len() > 0,
            Err(EmbedderErrorView::Config(EmbedErrorView::UnknownMode { given })) => given
                == c.embed_mode && given != "summary"@ && given != "docstring"@,
            Err(EmbedderErrorView::Config(EmbedErrorView::NoVoyageKey)) => c.provider == "voyage"@
                && c.voyage_api_key.len() == 0,
            Err(EmbedderErrorView::Config(EmbedErrorView::NoOpenAiKey)) => c.provider == "openai"@
                && c.openai_api_key.len() == 0,
            Err(EmbedderErrorView::NotAnEmbedder { provider, .. }) => provider == c.provider
                && provider != "voyage"@ && provider != "ollama"@ && provider != "openai"@,
        },
        embedder_of(c) is Ok ==> c.embed_mode == "summary"@ || c.embed_mode == "docstring"@,
{
}

} // verus!
