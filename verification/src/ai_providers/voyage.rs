//! The Voyage embedder: its settings, its requests, and reading its replies.
use vstd::prelude::*;

use crate::config::EmbedConfig;
use crate::text::same;

verus! {

/// How many texts one request may carry.
pub const MAX_BATCH: usize = 128;

/// How many times a request is retried.
pub const MAX_RETRIES: usize = 3;

/// What is needed to call the embeddings API.
#[derive(Debug)]
pub struct VoyageEmbedder {
    pub api_key: String,
    pub model: String,
    pub dimension: usize,
    pub max_tokens: usize,
}

/// What a [`VoyageEmbedder`] holds.
#[verifier::ext_equal]
pub struct VoyageEmbedderView {
    pub api_key: Seq<char>,
    pub model: Seq<char>,
    pub dimension: usize,
    pub max_tokens: usize,
}

impl DeepView for VoyageEmbedder {
    type V = VoyageEmbedderView;

    open spec fn deep_view(&self) -> VoyageEmbedderView {
        VoyageEmbedderView {
            api_key: self.api_key@,
            model: self.model@,
            dimension: self.dimension,
            max_tokens: self.max_tokens,
        }
    }
}

impl Clone for VoyageEmbedder {
    fn clone(&self) -> (r: Self)
        ensures
            r.deep_view() == self.deep_view(),
    {
        VoyageEmbedder {
            api_key: self.api_key.clone(),
            model: self.model.clone(),
            dimension: self.dimension,
            max_tokens: self.max_tokens,
        }
    }
}

/// The body of a request.
#[derive(Debug)]
pub struct VoyageRequest {
    pub model: String,
    pub input: Vec<String>,
    /// `document` for what is indexed, `query` for what is searched.
    pub input_type: String,
}

/// What a [`VoyageRequest`] holds.
#[verifier::ext_equal]
pub struct VoyageRequestView {
    pub model: Seq<char>,
    pub input: Seq<Seq<char>>,
    pub input_type: Seq<char>,
}

impl DeepView for VoyageRequest {
    type V = VoyageRequestView;

    open spec fn deep_view(&self) -> VoyageRequestView {
        VoyageRequestView {
            model: self.model@,
            input: self.input.deep_view(),
            input_type: self.input_type@,
        }
    }
}

impl Clone for VoyageRequest {
    fn clone(&self) -> (r: Self)
        ensures
            r.deep_view() == self.deep_view(),
    {
        VoyageRequest {
            model: self.model.clone(),
            input: self.input.clone(),
            input_type: self.input_type.clone(),
        }
    }
}

/// Why there is no embedder or no embedding.
#[derive(Clone, Copy, PartialEq, Eq, Structural, Debug)]
pub enum VoyageError {
    NoKey,
    EmptyResult,
}

impl VoyageError {
    /// The error in words.
    pub open spec fn words(self) -> Seq<char> {
        match self {
            VoyageError::NoKey => "VOYAGE_API_KEY is required for Voyage embedder"@,
            VoyageError::EmptyResult => "Voyage returned empty result"@,
        }
    }

    /// The error as text.
    pub fn message(self) -> (r: String)
        ensures
            r@ == self.words(),
    {
        match self {
            VoyageError::NoKey => "VOYAGE_API_KEY is required for Voyage embedder".to_string(),
            VoyageError::EmptyResult => "Voyage returned empty result".to_string(),
        }
    }
}

/// The dimension of a model's embeddings.
pub open spec fn dimension_of(model: Seq<char>) -> usize {
    if model == "voyage-3-lite"@ {
        512
    } else {
        1024
    }
}

/// The dimension of a model's embeddings; 1024 for models that are not known.
pub fn dimension_for_model(model: &str) -> (r: usize)
    ensures
        r == dimension_of(model@),
{
    if same(model, "voyage-3-lite") {
        512
    } else {
        1024
    }
}

/// Builds the body of a request.
pub fn build_request_body(model: &str, texts: &[&str], input_type: &str) -> (r: VoyageRequest)
    ensures
        r.model@ == model@,
        r.input.deep_view() == crate::text::str_views(texts@),
        r.input_type@ == input_type@,
{
    let ghost want = crate::text::str_views(texts@);
    let mut input: Vec<String> = Vec::new();
    let mut i: usize = 0;
    assert(input.deep_view() =~= want.take(0));
    while i < texts.len()
        invariant
            i <= texts@.len(),
            want == crate::text::str_views(texts@),
            input.deep_view() == want.take(i as int),
        decreases texts@.len() - i,
    {
        let ghost before = input.deep_view();
        let s = texts[i].to_string();
        let ghost sv = s@;
        input.push(s);
        proof {
            assert(want[i as int] == sv);
            assert(input.deep_view() =~= before.push(sv));
            assert(want.take(i + 1) =~= want.take(i as int).push(want[i as int]));
        }
        i += 1;
    }
    assert(want.take(i as int) =~= want);
    VoyageRequest { model: model.to_string(), input, input_type: input_type.to_string() }
}

/// Where the batch that begins at `from` ends.
pub open spec fn batch_end(n: int, from: int) -> int {
    if n - from > MAX_BATCH {
        from + MAX_BATCH
    } else {
        n
    }
}

/// The ends of the batches from `from` on, one after the other.
pub open spec fn batch_ends(n: int, from: int) -> Seq<int>
    decreases n - from,
{
    if from >= n {
        Seq::<int>::empty()
    } else {
        seq![batch_end(n, from)] + batch_ends(n, batch_end(n, from))
    }
}

/// The ends of the batches into which `n` texts are split: each begins where
/// the one before it ends.
pub fn batches(n: usize) -> (r: Vec<usize>)
    ensures
        r@.map_values(|e: usize| e as int) == batch_ends(n as int, 0),
{
    let mut out: Vec<usize> = Vec::new();
    let mut from: usize = 0;
    assert(out@.map_values(|e: usize| e as int) + batch_ends(n as int, 0) =~= batch_ends(
        n as int,
        0,
    ));
    while from < n
        invariant
            from <= n,
            out@.map_values(|e: usize| e as int) + batch_ends(n as int, from as int)
                == batch_ends(n as int, 0),
        decreases n - from,
    {
        let ghost before = out@.map_values(|e: usize| e as int);
        let end: usize = if n - from > MAX_BATCH {
            from + MAX_BATCH
        } else {
            n
        };
        out.push(end);
        proof {
            let rest = batch_ends(n as int, end as int);
            assert(out@.map_values(|e: usize| e as int) =~= before.push(end as int));
            assert(before + (seq![end as int] + rest) =~= before.push(end as int) + rest);
        }
        from = end;
    }
    assert(out@.map_values(|e: usize| e as int) + Seq::<int>::empty() =~= out@.map_values(
        |e: usize| e as int,
    ));
    out
}

/// The first embedding of a reply to a request of one text.
pub fn first_embedding(results: &Vec<Vec<u32>>) -> (r: Result<Vec<u32>, VoyageError>)
    ensures
        match r {
            Ok(v) => results@.len() > 0 && v@ == results@[0]@,
            Err(e) => results@.len() == 0 && e == VoyageError::EmptyResult,
        },
{
    if results.len() == 0 {
        Err(VoyageError::EmptyResult)
    } else {
        let v = results[0].clone();
        assert(v@ =~= results@[0]@);
        Ok(v)
    }
}

impl VoyageEmbedder {
    /// Takes what is needed from the configuration; the key has to be there.
    pub fn new(config: &EmbedConfig) -> (r: Result<VoyageEmbedder, VoyageError>)
        ensures
            match r {
                Ok(e) => config.voyage_api_key@.len() > 0 && e.deep_view() == (VoyageEmbedderView {
                    api_key: config.voyage_api_key@,
                    model: config.model@,
                    dimension: dimension_of(config.model@),
                    max_tokens: 16_000,
                }),
                Err(e) => config.voyage_api_key@.len() == 0 && e == VoyageError::NoKey,
            },
    {
        if config.voyage_api_key.as_str().unicode_len() == 0 {
            return Err(VoyageError::NoKey);
        }
        Ok(
            VoyageEmbedder {
                api_key: config.voyage_api_key.clone(),
                model: config.model.clone(),
                dimension: dimension_for_model(config.model.as_str()),
                max_tokens: 16_000,
            },
        )
    }

    /// The length of an embedding.
    pub fn dimension(&self) -> (r: usize)
        ensures
            r == self.dimension,
    {
        self.dimension
    }

    /// The longest input, in tokens.
    pub fn max_input_tokens(&self) -> (r: usize)
        ensures
            r == self.max_tokens,
    {
        self.max_tokens
    }

    /// The provider's name.
    pub fn provider_name(&self) -> (r: &'static str)
        ensures
            r@ == "voyage"@,
    {
        "voyage"
    }

    /// The model that embeds.
    pub fn model_name(&self) -> (r: &str)
        ensures
            r@ == self.model@,
    {
        self.model.as_str()
    }
}

proof fn lemma_batch_ends(n: int, from: int, k: int)
    requires
        0 <= from <= n,
        0 <= k < batch_ends(n, from).len(),
    ensures
        ({
            let ends = batch_ends(n, from);
            let start = if k == 0 {
                from
            } else {
                ends[k - 1]
            };
            &&& start < ends[k] <= n
            &&& ends[k] - start <= MAX_BATCH
            &&& k == ends.len() - 1 ==> ends[k] == n
        }),
    decreases n - from,
{
    let e = batch_end(n, from);
    let rest = batch_ends(n, e);
    if k > 0 {
        lemma_batch_ends(n, e, k - 1);
        assert(batch_ends(n, from)[k] == rest[k - 1]);
        if k > 1 {
            assert(batch_ends(n, from)[k - 1] == rest[k - 2]);
        }
    } else if rest.len() == 0 {
        assert(e >= n);
    }
}

/// The batches cover all texts in order: each begins where the one before it
/// ends, none is empty or holds more than [`MAX_BATCH`], and the last ends at
/// the end.
pub proof fn law_batches_cover(n: int, k: int)
    requires
        0 <= k < batch_ends(n, 0).len(),
    ensures
        ({
            let ends = batch_ends(n, 0);
            let start = if k == 0 {
                0
            } else {
                ends[k - 1]
            };
            &&& start < ends[k] <= n
            &&& ends[k] - start <= MAX_BATCH
            &&& k == ends.len() - 1 ==> ends[k] == n
        }),
{
    if n > 0 {
        lemma_batch_ends(n, 0, k);
    }
}

/// Every batch but the last is full.
pub proof fn law_batches_are_full(n: int, from: int, k: int)
    requires
        0 <= from <= n,
        0 <= k < batch_ends(n, from).len() - 1,
    ensures
        batch_ends(n, from)[k] - (if k == 0 {
            from
        } else {
            batch_ends(n, from)[k - 1]
        }) == MAX_BATCH,
    decreases n - from,
{
    let e = batch_end(n, from);
    let rest = batch_ends(n, e);
    if k > 0 {
        law_batches_are_full(n, e, k - 1);
        assert(batch_ends(n, from)[k] == rest[k - 1]);
        if k > 1 {
            assert(batch_ends(n, from)[k - 1] == rest[k - 2]);
        }
    }
}

} // verus!
