//! What the engine keeps in a vector store: documents, namespaces and their
//! metadata, and the shape of a nearest-neighbour query and its hits.
use vstd::prelude::*;

use crate::textmap::TextMap;

verus! {

/// An IEEE single-precision number, held as its bit pattern.
#[derive(Clone, Copy, PartialEq, Eq, Structural, Debug)]
pub struct Score {
    pub bits: u32,
}

impl DeepView for Score {
    type V = Score;

    open spec fn deep_view(&self) -> Score {
        *self
    }
}

impl Score {
    /// Whether the pattern stands for no number.
    pub open spec fn nan(self) -> bool {
        self.magnitude() > 0x7f80_0000
    }

    /// The pattern without its sign bit.
    pub open spec fn magnitude(self) -> int {
        if self.bits < 0x8000_0000 {
            self.bits as int
        } else {
            self.bits - 0x8000_0000
        }
    }

    /// An integer that orders patterns as the numbers they stand for are
    /// ordered; both zeros have the same key.
    pub open spec fn key(self) -> int {
        if self.bits < 0x8000_0000 {
            self.bits as int
        } else {
            0x8000_0000 - self.bits
        }
    }

    /// Whether `self` is the greater number, by the order of the keys.
    pub fn above(self, other: Score) -> (r: bool)
        ensures
            r == (self.key() > other.key()),
    {
        self.order_key() > other.order_key()
    }

    /// Whether both are numbers and `self` is at least `min`.
    pub fn at_least(self, min: Score) -> (r: bool)
        ensures
            r == (!self.nan() && !min.nan() && self.key() >= min.key()),
    {
        !self.is_nan() && !min.is_nan() && self.order_key() >= min.order_key()
    }

    /// Whether the pattern stands for no number.
    pub fn is_nan(self) -> (r: bool)
        ensures
            r == self.nan(),
    {
        if self.bits < 0x8000_0000 {
            self.bits > 0x7f80_0000
        } else {
            self.bits - 0x8000_0000 > 0x7f80_0000
        }
    }

    /// The key by which scores are ordered.
    pub fn order_key(self) -> (r: i64)
        ensures
            r == self.key(),
    {
        if self.bits < 0x8000_0000 {
            self.bits as i64
        } else {
            0x8000_0000 - self.bits as i64
        }
    }
}

/// Whether a document stands for a whole file or for one symbol in it.
#[derive(Clone, Copy, PartialEq, Eq, Structural, Debug)]
pub enum ChunkKind {
    File,
    Symbol,
}

impl DeepView for ChunkKind {
    type V = ChunkKind;

    open spec fn deep_view(&self) -> ChunkKind {
        *self
    }
}

impl ChunkKind {
    /// The kind's name.
    pub open spec fn name(self) -> Seq<char> {
        match self {
            ChunkKind::File => "file"@,
            ChunkKind::Symbol => "symbol"@,
        }
    }

    /// The kind as text.
    pub fn as_str(self) -> (r: &'static str)
        ensures
            r@ == self.name(),
    {
        match self {
            ChunkKind::File => "file",
            ChunkKind::Symbol => "symbol",
        }
    }
}

/// The name under which a store keeps the documents of one source.
#[derive(Debug)]
pub struct Namespace {
    pub name: String,
}

/// What a [`Namespace`] holds.
#[verifier::ext_equal]
pub struct NamespaceView {
    pub name: Seq<char>,
}

impl DeepView for Namespace {
    type V = NamespaceView;

    open spec fn deep_view(&self) -> NamespaceView {
        NamespaceView {
            name: self.name@,
        }
    }
}

impl Clone for Namespace {
    fn clone(&self) -> (r: Self)
        ensures
            r.deep_view() == self.deep_view(),
    {
        Namespace {
            name: self.name.clone(),
        }
    }
}

/// One embedded chunk with its payload.
#[derive(Debug)]
pub struct VectorDocument {
    pub id: String,
    /// The embedding, each component as its IEEE bit pattern.
    pub vector: Vec<u32>,
    pub summary: String,
    pub file_path: String,
    pub chunk_kind: ChunkKind,
    pub symbol_name: Option<String>,
    pub symbol_kind: Option<String>,
    pub start_line: Option<u32>,
    pub end_line: Option<u32>,
    pub language: Option<String>,
    pub content_hash: Option<String>,
    pub calls: Option<Vec<String>>,
    pub called_by: Option<Vec<String>>,
    /// Unix seconds of the last index or retrieval.
    pub last_used_at: Option<i64>,
}

/// What a [`VectorDocument`] holds.
#[verifier::ext_equal]
pub struct VectorDocumentView {
    pub id: Seq<char>,
    pub vector: Seq<u32>,
    pub summary: Seq<char>,
    pub file_path: Seq<char>,
    pub chunk_kind: ChunkKind,
    pub symbol_name: Option<Seq<char>>,
    pub symbol_kind: Option<Seq<char>>,
    pub start_line: Option<u32>,
    pub end_line: Option<u32>,
    pub language: Option<Seq<char>>,
    pub content_hash: Option<Seq<char>>,
    pub calls: Option<Seq<Seq<char>>>,
    pub called_by: Option<Seq<Seq<char>>>,
    pub last_used_at: Option<i64>,
}

impl DeepView for VectorDocument {
    type V = VectorDocumentView;

    open spec fn deep_view(&self) -> VectorDocumentView {
        VectorDocumentView {
            id: self.id@,
            vector: self.vector.deep_view(),
            summary: self.summary@,
            file_path: self.file_path@,
            chunk_kind: self.chunk_kind,
            symbol_name: self.symbol_name.deep_view(),
            symbol_kind: self.symbol_kind.deep_view(),
            start_line: self.start_line.deep_view(),
            end_line: self.end_line.deep_view(),
            language: self.language.deep_view(),
            content_hash: self.content_hash.deep_view(),
            calls: self.calls.deep_view(),
            called_by: self.called_by.deep_view(),
            last_used_at: self.last_used_at.deep_view(),
        }
    }
}

impl Clone for VectorDocument {
    fn clone(&self) -> (r: Self)
        ensures
            r.deep_view() == self.deep_view(),
    {
        VectorDocument {
            id: self.id.clone(),
            vector: self.vector.clone(),
            summary: self.summary.clone(),
            file_path: self.file_path.clone(),
            chunk_kind: self.chunk_kind,
            symbol_name: self.symbol_name.clone(),
            symbol_kind: self.symbol_kind.clone(),
            start_line: self.start_line,
            end_line: self.end_line,
            language: self.language.clone(),
            content_hash: self.content_hash.clone(),
            calls: self.calls.clone(),
            called_by: self.called_by.clone(),
            last_used_at: self.last_used_at,
        }
    }
}

/// One hit of a nearest-neighbour query.
#[derive(Debug)]
pub struct SearchResult {
    pub id: String,
    pub score: Score,
    pub file_path: String,
    pub chunk_kind: ChunkKind,
    pub symbol_name: Option<String>,
    pub symbol_kind: Option<String>,
    pub summary: String,
    pub start_line: Option<u32>,
    pub end_line: Option<u32>,
    pub language: Option<String>,
    pub calls: Option<Vec<String>>,
    pub called_by: Option<Vec<String>>,
    pub last_used_at: Option<i64>,
}

/// What a [`SearchResult`] holds.
#[verifier::ext_equal]
pub struct SearchResultView {
    pub id: Seq<char>,
    pub score: Score,
    pub file_path: Seq<char>,
    pub chunk_kind: ChunkKind,
    pub symbol_name: Option<Seq<char>>,
    pub symbol_kind: Option<Seq<char>>,
    pub summary: Seq<char>,
    pub start_line: Option<u32>,
    pub end_line: Option<u32>,
    pub language: Option<Seq<char>>,
    pub calls: Option<Seq<Seq<char>>>,
    pub called_by: Option<Seq<Seq<char>>>,
    pub last_used_at: Option<i64>,
}

impl DeepView for SearchResult {
    type V = SearchResultView;

    open spec fn deep_view(&self) -> SearchResultView {
        SearchResultView {
            id: self.id@,
            score: self.score,
            file_path: self.file_path@,
            chunk_kind: self.chunk_kind,
            symbol_name: self.symbol_name.deep_view(),
            symbol_kind: self.symbol_kind.deep_view(),
            summary: self.summary@,
            start_line: self.start_line.deep_view(),
            end_line: self.end_line.deep_view(),
            language: self.language.deep_view(),
            calls: self.calls.deep_view(),
            called_by: self.called_by.deep_view(),
            last_used_at: self.last_used_at.deep_view(),
        }
    }
}

impl Clone for SearchResult {
    fn clone(&self) -> (r: Self)
        ensures
            r.deep_view() == self.deep_view(),
    {
        SearchResult {
            id: self.id.clone(),
            score: self.score,
            file_path: self.file_path.clone(),
            chunk_kind: self.chunk_kind,
            symbol_name: self.symbol_name.clone(),
            symbol_kind: self.symbol_kind.clone(),
            summary: self.summary.clone(),
            start_line: self.start_line,
            end_line: self.end_line,
            language: self.language.clone(),
            calls: self.calls.clone(),
            called_by: self.called_by.clone(),
            last_used_at: self.last_used_at,
        }
    }
}

/// What a nearest-neighbour query asks for.
#[derive(Debug)]
pub struct SearchOptions {
    /// How many hits at most; zero asks for all.
    pub top_k: usize,
    /// Only documents whose path begins with one of these; empty admits all.
    pub path_prefixes: Vec<String>,
    pub chunk_kind: Option<ChunkKind>,
    pub language: Option<String>,
    pub min_score: Option<Score>,
}

/// What a [`SearchOptions`] holds.
#[verifier::ext_equal]
pub struct SearchOptionsView {
    pub top_k: usize,
    pub path_prefixes: Seq<Seq<char>>,
    pub chunk_kind: Option<ChunkKind>,
    pub language: Option<Seq<char>>,
    pub min_score: Option<Score>,
}

impl DeepView for SearchOptions {
    type V = SearchOptionsView;

    open spec fn deep_view(&self) -> SearchOptionsView {
        SearchOptionsView {
            top_k: self.top_k,
            path_prefixes: self.path_prefixes.deep_view(),
            chunk_kind: self.chunk_kind.deep_view(),
            language: self.language.deep_view(),
            min_score: self.min_score.deep_view(),
        }
    }
}

impl Clone for SearchOptions {
    fn clone(&self) -> (r: Self)
        ensures
            r.deep_view() == self.deep_view(),
    {
        SearchOptions {
            top_k: self.top_k,
            path_prefixes: self.path_prefixes.clone(),
            chunk_kind: self.chunk_kind,
            language: self.language.clone(),
            min_score: self.min_score,
        }
    }
}

/// What a namespace remembers about how it was built.
#[derive(Debug)]
pub struct NamespaceMetadata {
    /// The cursor up to which the source has been indexed.
    pub hwm_sha: Option<String>,
    /// The identity of the embedder that made the vectors.
    pub embedder: Option<String>,
    pub extra: TextMap,
}

/// What a [`NamespaceMetadata`] holds.
#[verifier::ext_equal]
pub struct NamespaceMetadataView {
    pub hwm_sha: Option<Seq<char>>,
    pub embedder: Option<Seq<char>>,
    pub extra: Map<Seq<char>, Seq<char>>,
}

impl DeepView for NamespaceMetadata {
    type V = NamespaceMetadataView;

    open spec fn deep_view(&self) -> NamespaceMetadataView {
        NamespaceMetadataView {
            hwm_sha: self.hwm_sha.deep_view(),
            embedder: self.embedder.deep_view(),
            extra: self.extra@,
        }
    }
}

impl Clone for NamespaceMetadata {
    fn clone(&self) -> (r: Self)
        ensures
            r.deep_view() == self.deep_view(),
    {
        NamespaceMetadata {
            hwm_sha: self.hwm_sha.clone(),
            embedder: self.embedder.clone(),
            extra: self.extra.clone(),
        }
    }
}

/// How many documents an upsert wrote.
#[derive(Clone, Copy, PartialEq, Eq, Structural, Debug)]
pub struct UpsertStats {
    pub upserted: usize,
    pub skipped: usize,
}

impl Namespace {
    /// A namespace of the given name.
    pub fn from(name: &str) -> (r: Namespace)
        ensures
            r.name@ == name@,
    {
        Namespace { name: name.to_string() }
    }

    /// The namespace's name.
    pub fn as_str(&self) -> (r: &str)
        ensures
            r@ == self.name@,
    {
        self.name.as_str()
    }
}

impl Default for NamespaceMetadata {
    /// Metadata of a namespace that was never indexed.
    fn default() -> (r: NamespaceMetadata)
        ensures
            r.hwm_sha is None,
            r.embedder is None,
            r.extra@ == Map::<Seq<char>, Seq<char>>::empty(),
    {
        NamespaceMetadata { hwm_sha: None, embedder: None, extra: TextMap::new() }
    }
}

impl Default for SearchOptions {
    /// A query that admits everything.
    fn default() -> (r: SearchOptions)
        ensures
            r.top_k == 0,
            r.path_prefixes@.len() == 0,
            r.chunk_kind is None,
            r.language is None,
            r.min_score is None,
    {
        SearchOptions {
            top_k: 0,
            path_prefixes: Vec::new(),
            chunk_kind: None,
            language: None,
            min_score: None,
        }
    }
}

} // verus!
