//! A vector store in memory. Ranking takes each document's similarity to the
//! query as an argument, so it follows the numbers it is given exactly.
use vstd::prelude::*;

use crate::globs::{any_glob_matches, compile_glob, glob_failure, globs_of, set_matches};
use crate::rank::{ints, law_ranked, law_top, places, ranked, top, top_of};
use crate::store::{ChunkKind, Namespace, NamespaceMetadata, NamespaceMetadataView, Score,
    SearchOptions, SearchOptionsView, SearchResult, SearchResultView, UpsertStats, VectorDocument,
    VectorDocumentView};
use crate::text::{
    decimal, has_prefix, has_text, lemma_part_at_end, lemma_part_between, lemma_three_at_end,
    occurs, same, show_usize, starts_with,
};
use crate::textmap::TextMap;

verus! {

/// One namespace of the store.
#[derive(Debug)]
pub struct MockNamespace {
    pub name: String,
    /// The length of every vector in it.
    pub dimension: usize,
    pub metadata: NamespaceMetadata,
    pub documents: Vec<VectorDocument>,
}

/// What a [`MockNamespace`] holds.
#[verifier::ext_equal]
pub struct MockNamespaceView {
    pub name: Seq<char>,
    pub dimension: usize,
    pub metadata: NamespaceMetadataView,
    pub documents: Seq<VectorDocumentView>,
}

impl DeepView for MockNamespace {
    type V = MockNamespaceView;

    open spec fn deep_view(&self) -> MockNamespaceView {
        MockNamespaceView {
            name: self.name@,
            dimension: self.dimension,
            metadata: self.metadata.deep_view(),
            documents: self.documents.deep_view(),
        }
    }
}

impl Clone for MockNamespace {
    fn clone(&self) -> (r: Self)
        ensures
            r.deep_view() == self.deep_view(),
    {
        MockNamespace {
            name: self.name.clone(),
            dimension: self.dimension,
            metadata: self.metadata.clone(),
            documents: self.documents.clone(),
        }
    }
}

/// A vector store in memory.
#[derive(Debug)]
pub struct MockVectorStore {
    pub namespaces: Vec<MockNamespace>,
}

/// What a [`MockVectorStore`] holds.
#[verifier::ext_equal]
pub struct MockVectorStoreView {
    pub namespaces: Seq<MockNamespaceView>,
}

impl DeepView for MockVectorStore {
    type V = MockVectorStoreView;

    open spec fn deep_view(&self) -> MockVectorStoreView {
        MockVectorStoreView {
            namespaces: self.namespaces.deep_view(),
        }
    }
}

impl Clone for MockVectorStore {
    fn clone(&self) -> (r: Self)
        ensures
            r.deep_view() == self.deep_view(),
    {
        MockVectorStore {
            namespaces: self.namespaces.clone(),
        }
    }
}

/// Why an operation fails.
#[derive(Debug)]
pub enum StoreFailure {
    /// There is a namespace of that name already.
    AlreadyExists { name: String },
    /// There is no namespace of that name.
    NotFound { name: String },
    /// A vector has the wrong length.
    Dimension { expected: usize, got: usize },
    /// A pattern does not compile.
    InvalidGlob { cause: String },
}

/// What a [`StoreFailure`] holds.
#[verifier::ext_equal]
pub enum StoreFailureView {
    AlreadyExists { name: Seq<char> },
    NotFound { name: Seq<char> },
    Dimension { expected: usize, got: usize },
    InvalidGlob { cause: Seq<char> },
}

impl DeepView for StoreFailure {
    type V = StoreFailureView;

    open spec fn deep_view(&self) -> StoreFailureView {
        match self {
            StoreFailure::AlreadyExists { name } => StoreFailureView::AlreadyExists {
                name: name@,
            },
            StoreFailure::NotFound { name } => StoreFailureView::NotFound { name: name@ },
            StoreFailure::Dimension { expected, got } => StoreFailureView::Dimension {
                expected: *expected,
                got: *got,
            },
            StoreFailure::InvalidGlob { cause } => StoreFailureView::InvalidGlob { cause: cause@ },
        }
    }
}

/// A failure in words.
pub open spec fn failure_words(e: StoreFailureView) -> Seq<char> {
    match e {
        StoreFailureView::AlreadyExists { name } => "namespace '"@ + name + "' already exists"@,
        StoreFailureView::NotFound { name } => "namespace '"@ + name + "' not found"@,
        StoreFailureView::Dimension { expected, got } =>
            "vector dimension mismatch: expected "@ + decimal(expected as nat) + ", got "@ + decimal(
                got as nat,
            ),
        StoreFailureView::InvalidGlob { cause } => "invalid glob: "@ + cause,
    }
}

impl StoreFailure {
    /// The failure as text.
    pub fn message(&self) -> (r: String)
        ensures
            r@ == failure_words(self.deep_view()),
    {
        match self {
            StoreFailure::AlreadyExists { name } => {
                let mut r = "namespace '".to_string();
                r.append(name.as_str());
                r.append("' already exists");
                r
            },
            StoreFailure::NotFound { name } => {
                let mut r = "namespace '".to_string();
                r.append(name.as_str());
                r.append("' not found");
                r
            },
            StoreFailure::Dimension { expected, got } => {
                let mut r = "vector dimension mismatch: expected ".to_string();
                r.append(show_usize(*expected).as_str());
                r.append(", got ");
                r.append(show_usize(*got).as_str());
                r
            },
            StoreFailure::InvalidGlob { cause } => {
                let mut r = "invalid glob: ".to_string();
                r.append(cause.as_str());
                r
            },
        }
    }
}

// ---------------------------------------------------------------------------
// Lookup
// ---------------------------------------------------------------------------

/// Where the namespace of that name stands, from `i` on.
pub open spec fn space_from(spaces: Seq<MockNamespaceView>, name: Seq<char>, i: int) -> Option<int>
    decreases spaces.len() - i,
{
    if i < 0 || i >= spaces.len() {
        None
    } else if spaces[i].name == name {
        Some(i)
    } else {
        space_from(spaces, name, i + 1)
    }
}

/// Where the namespace of that name stands.
pub open spec fn space_at(spaces: Seq<MockNamespaceView>, name: Seq<char>) -> Option<int> {
    space_from(spaces, name, 0)
}

proof fn lemma_space_from(spaces: Seq<MockNamespaceView>, name: Seq<char>, i: int)
    requires
        0 <= i <= spaces.len(),
    ensures
        match space_from(spaces, name, i) {
            Some(k) => i <= k < spaces.len() && spaces[k].name == name && forall|j: int|
                i <= j < k ==> (#[trigger] spaces[j]).name != name,
            None => forall|j: int| i <= j < spaces.len() ==> (#[trigger] spaces[j]).name != name,
        },
    decreases spaces.len() - i,
{
    if i < spaces.len() && spaces[i].name != name {
        lemma_space_from(spaces, name, i + 1);
    }
}

/// Where the document of that id stands, from `i` on.
pub open spec fn doc_from(docs: Seq<VectorDocumentView>, id: Seq<char>, i: int) -> Option<int>
    decreases docs.len() - i,
{
    if i < 0 || i >= docs.len() {
        None
    } else if docs[i].id == id {
        Some(i)
    } else {
        doc_from(docs, id, i + 1)
    }
}

/// The document of that id.
pub open spec fn lookup(docs: Seq<VectorDocumentView>, id: Seq<char>) -> Option<
    VectorDocumentView,
> {
    match doc_from(docs, id, 0) {
        Some(k) => Some(docs[k]),
        None => None,
    }
}

proof fn lemma_doc_from(docs: Seq<VectorDocumentView>, id: Seq<char>, i: int)
    requires
        0 <= i <= docs.len(),
    ensures
        match doc_from(docs, id, i) {
            Some(k) => i <= k < docs.len() && docs[k].id == id && forall|j: int|
                i <= j < k ==> (#[trigger] docs[j]).id != id,
            None => forall|j: int| i <= j < docs.len() ==> (#[trigger] docs[j]).id != id,
        },
    decreases docs.len() - i,
{
    if i < docs.len() && docs[i].id != id {
        lemma_doc_from(docs, id, i + 1);
    }
}

// ---------------------------------------------------------------------------
// Writing documents
// ---------------------------------------------------------------------------

/// Documents with one more, which replaces the one of the same id.
pub open spec fn stored(docs: Seq<VectorDocumentView>, d: VectorDocumentView) -> Seq<
    VectorDocumentView,
> {
    match doc_from(docs, d.id, 0) {
        Some(k) => docs.update(k, d),
        None => docs.push(d),
    }
}

/// Documents with more of them, one after the other.
pub open spec fn stored_all(docs: Seq<VectorDocumentView>, more: Seq<VectorDocumentView>) -> Seq<
    VectorDocumentView,
>
    decreases more.len(),
{
    if more.len() == 0 {
        docs
    } else {
        stored(stored_all(docs, more.drop_last()), more.last())
    }
}

/// The first document from `i` on whose vector has another length, or the end.
pub open spec fn first_misfit(docs: Seq<VectorDocumentView>, dimension: int, i: int) -> int
    decreases docs.len() - i,
{
    if i < 0 || i >= docs.len() {
        docs.len() as int
    } else if docs[i].vector.len() != dimension {
        i
    } else {
        first_misfit(docs, dimension, i + 1)
    }
}

fn put(docs: &mut Vec<VectorDocument>, d: VectorDocument)
    ensures
        final(docs).deep_view() == stored(old(docs).deep_view(), d.deep_view()),
{
    let ghost dv = docs.deep_view();
    let ghost new = d.deep_view();
    let mut i: usize = 0;
    while i < docs.len()
        invariant
            i <= docs@.len(),
            dv == docs.deep_view(),
            dv == old(docs).deep_view(),
            new == d.deep_view(),
            doc_from(dv, new.id, 0) == doc_from(dv, new.id, i as int),
        decreases docs@.len() - i,
    {
        assert(dv[i as int] == docs@[i as int].deep_view());
        if same(docs[i].id.as_str(), d.id.as_str()) {
            docs.set(i, d);
            assert(docs.deep_view() =~= dv.update(i as int, new));
            return;
        }
        i += 1;
    }
    assert(dv.len() == docs@.len());
    docs.push(d);
    assert(docs.deep_view() =~= dv.push(new));
}

// ---------------------------------------------------------------------------
// Removing documents
// ---------------------------------------------------------------------------

/// The documents that are marked to be kept.
pub open spec fn kept(docs: Seq<VectorDocumentView>, keep: Seq<bool>) -> Seq<VectorDocumentView>
    decreases docs.len(),
{
    if docs.len() == 0 {
        docs
    } else if keep.last() {
        kept(docs.drop_last(), keep.drop_last()).push(docs.last())
    } else {
        kept(docs.drop_last(), keep.drop_last())
    }
}

/// Documents of other files.
pub open spec fn of_other_files(path: Seq<char>) -> spec_fn(VectorDocumentView) -> bool {
    |d: VectorDocumentView| d.file_path != path
}

/// Documents of other ids.
pub open spec fn of_other_ids(ids: Seq<Seq<char>>) -> spec_fn(VectorDocumentView) -> bool {
    |d: VectorDocumentView| !ids.contains(d.id)
}

/// Documents whose path does not match the pattern, which minds case.
pub open spec fn unmatched(pattern: Seq<char>) -> spec_fn(VectorDocumentView) -> bool {
    |d: VectorDocumentView| !any_glob_matches(seq![(pattern, false)], d.file_path)
}

proof fn lemma_kept(
    docs: Seq<VectorDocumentView>,
    keep: Seq<bool>,
    p: spec_fn(VectorDocumentView) -> bool,
)
    requires
        docs.len() == keep.len(),
        forall|i: int| 0 <= i < docs.len() ==> #[trigger] keep[i] == p(docs[i]),
    ensures
        kept(docs, keep) == docs.filter(p),
        kept(docs, keep).len() <= docs.len(),
    decreases docs.len(),
{
    reveal(Seq::filter);
    if docs.len() > 0 {
        assert forall|i: int| 0 <= i < docs.drop_last().len() implies #[trigger] keep.drop_last()[i]
            == p(docs.drop_last()[i]) by {
            assert(keep[i] == p(docs[i]));
        }
        lemma_kept(docs.drop_last(), keep.drop_last(), p);
        assert(keep.last() == keep[docs.len() - 1]);
        assert(docs.last() == docs[docs.len() - 1]);
    }
}

fn retain(docs: &Vec<VectorDocument>, keep: &Vec<bool>) -> (r: Vec<VectorDocument>)
    requires
        docs@.len() == keep@.len(),
    ensures
        r.deep_view() == kept(docs.deep_view(), keep@),
{
    let ghost dv = docs.deep_view();
    let mut out: Vec<VectorDocument> = Vec::new();
    let mut i: usize = 0;
    proof {
        assert(dv.take(0) =~= Seq::<VectorDocumentView>::empty());
        assert(out.deep_view() =~= kept(dv.take(0), keep@.take(0)));
    }
    while i < docs.len()
        invariant
            i <= docs@.len(),
            docs@.len() == keep@.len(),
            dv == docs.deep_view(),
            out.deep_view() == kept(dv.take(i as int), keep@.take(i as int)),
        decreases docs@.len() - i,
    {
        proof {
            assert(dv.take(i + 1).drop_last() =~= dv.take(i as int));
            assert(keep@.take(i + 1).drop_last() =~= keep@.take(i as int));
            assert(dv.take(i + 1).last() == docs@[i as int].deep_view());
            assert(keep@.take(i + 1).last() == keep@[i as int]);
        }
        if keep[i] {
            let ghost before = out.deep_view();
            let d = docs[i].clone();
            let ghost one = d.deep_view();
            out.push(d);
            assert(out.deep_view() =~= before.push(one));
        }
        i += 1;
    }
    proof {
        assert(dv.take(i as int) =~= dv);
        assert(keep@.take(i as int) =~= keep@);
    }
    out
}

// ---------------------------------------------------------------------------
// Queries
// ---------------------------------------------------------------------------

/// Whether a path begins with one of the prefixes.
pub open spec fn under_one(prefixes: Seq<Seq<char>>, path: Seq<char>) -> bool {
    exists|i: int| 0 <= i < prefixes.len() && has_prefix(path, #[trigger] prefixes[i])
}

/// Whether a query admits a document of that similarity.
pub open spec fn admitted(d: VectorDocumentView, score: Score, o: SearchOptionsView) -> bool {
    &&& o.path_prefixes.len() == 0 || under_one(o.path_prefixes, d.file_path)
    &&& o.chunk_kind is Some ==> o.chunk_kind == Some(d.chunk_kind)
    &&& o.language is Some ==> o.language == d.language
    &&& o.min_score is Some ==> !score.nan() && !o.min_score->0.nan() && score.key()
        >= o.min_score->0.key()
}

/// The positions below `n` of the documents a query admits.
pub open spec fn admitted_upto(
    docs: Seq<VectorDocumentView>,
    scores: Seq<Score>,
    o: SearchOptionsView,
    n: int,
) -> Seq<int>
    decreases n,
{
    if n <= 0 {
        Seq::<int>::empty()
    } else if admitted(docs[n - 1], scores[n - 1], o) {
        admitted_upto(docs, scores, o, n - 1).push(n - 1)
    } else {
        admitted_upto(docs, scores, o, n - 1)
    }
}

/// The positions of the documents a query admits.
pub open spec fn admitted_places(
    docs: Seq<VectorDocumentView>,
    scores: Seq<Score>,
    o: SearchOptionsView,
) -> Seq<int> {
    admitted_upto(docs, scores, o, docs.len() as int)
}

/// The keys of the scores at some positions.
pub open spec fn keys_at(scores: Seq<Score>, at: Seq<int>) -> Seq<int> {
    at.map_values(|i: int| scores[i].key())
}

/// How many hits a query asks for, given how many documents it admits.
pub open spec fn limit_of(o: SearchOptionsView, admitted: int) -> int {
    if o.top_k > 0 {
        o.top_k as int
    } else {
        admitted
    }
}

/// A document as a hit.
pub open spec fn hit_of(d: VectorDocumentView, score: Score) -> SearchResultView {
    SearchResultView {
        id: d.id,
        score,
        file_path: d.file_path,
        chunk_kind: d.chunk_kind,
        symbol_name: d.symbol_name,
        symbol_kind: d.symbol_kind,
        summary: d.summary,
        start_line: d.start_line,
        end_line: d.end_line,
        language: d.language,
        calls: d.calls,
        called_by: d.called_by,
        last_used_at: d.last_used_at,
    }
}

/// The hits of a query: the admitted documents by descending similarity, equal
/// ones in the order of the store, as many as were asked for.
pub open spec fn hits_of(
    docs: Seq<VectorDocumentView>,
    scores: Seq<Score>,
    o: SearchOptionsView,
) -> Seq<SearchResultView> {
    let at = admitted_places(docs, scores, o);
    top_of(at, keys_at(scores, at), limit_of(o, at.len() as int)).map_values(
        |i: int| hit_of(docs[i], scores[i]),
    )
}

fn is_under_one(prefixes: &Vec<String>, path: &str) -> (r: bool)
    ensures
        r == under_one(prefixes.deep_view(), path@),
{
    let ghost pv = prefixes.deep_view();
    let mut i: usize = 0;
    while i < prefixes.len()
        invariant
            i <= prefixes@.len(),
            pv == prefixes.deep_view(),
            forall|j: int| 0 <= j < i ==> !has_prefix(path@, #[trigger] pv[j]),
        decreases prefixes@.len() - i,
    {
        assert(pv[i as int] == prefixes@[i as int]@);
        if starts_with(path, prefixes[i].as_str()) {
            return true;
        }
        i += 1;
    }
    assert(pv.len() == prefixes@.len());
    false
}

fn admits(d: &VectorDocument, score: Score, o: &SearchOptions) -> (r: bool)
    ensures
        r == admitted(d.deep_view(), score, o.deep_view()),
{
    assert(o.path_prefixes.deep_view().len() == o.path_prefixes@.len());
    if o.path_prefixes.len() > 0 && !is_under_one(&o.path_prefixes, d.file_path.as_str()) {
        return false;
    }
    if let Some(k) = o.chunk_kind {
        if d.chunk_kind != k {
            return false;
        }
    }
    if let Some(lang) = &o.language {
        match &d.language {
            Some(l) => if !same(l.as_str(), lang.as_str()) {
                return false;
            },
            None => {
                return false;
            },
        }
    }
    match o.min_score {
        Some(min) => score.at_least(min),
        None => true,
    }
}

fn as_hit(d: &VectorDocument, score: Score) -> (r: SearchResult)
    ensures
        r.deep_view() == hit_of(d.deep_view(), score),
{
    SearchResult {
        id: d.id.clone(),
        score,
        file_path: d.file_path.clone(),
        chunk_kind: d.chunk_kind,
        symbol_name: d.symbol_name.clone(),
        symbol_kind: d.symbol_kind.clone(),
        summary: d.summary.clone(),
        start_line: d.start_line,
        end_line: d.end_line,
        language: d.language.clone(),
        calls: d.calls.clone(),
        called_by: d.called_by.clone(),
        last_used_at: d.last_used_at,
    }
}

fn query(docs: &Vec<VectorDocument>, scores: &Vec<Score>, o: &SearchOptions) -> (r: Vec<
    SearchResult,
>)
    requires
        docs@.len() == scores@.len(),
    ensures
        r.deep_view() == hits_of(docs.deep_view(), scores@, o.deep_view()),
{
    let ghost dv = docs.deep_view();
    let ghost ov = o.deep_view();
    let mut at: Vec<usize> = Vec::new();
    let mut keys: Vec<i64> = Vec::new();
    let mut i: usize = 0;
    proof {
        assert(places(at@) =~= admitted_upto(dv, scores@, ov, 0));
        assert(ints(keys@) =~= keys_at(scores@, admitted_upto(dv, scores@, ov, 0)));
    }
    while i < docs.len()
        invariant
            i <= docs@.len(),
            docs@.len() == scores@.len(),
            dv == docs.deep_view(),
            ov == o.deep_view(),
            places(at@) == admitted_upto(dv, scores@, ov, i as int),
            ints(keys@) == keys_at(scores@, admitted_upto(dv, scores@, ov, i as int)),
            at@.len() == keys@.len(),
            forall|k: int| 0 <= k < at@.len() ==> #[trigger] at@[k] < i,
        decreases docs@.len() - i,
    {
        assert(dv[i as int] == docs@[i as int].deep_view());
        if admits(&docs[i], scores[i], o) {
            let ghost b_at = at@;
            let ghost b_keys = keys@;
            let k: i64 = scores[i].order_key();
            at.push(i);
            keys.push(k);
            proof {
                assert(places(at@) =~= places(b_at).push(i as int));
                assert(ints(keys@) =~= ints(b_keys).push(k as int));
                assert(keys_at(scores@, places(b_at).push(i as int)) =~= keys_at(
                    scores@,
                    places(b_at),
                ).push(scores@[i as int].key()));
            }
        }
        i += 1;
    }
    assert(dv.len() == docs@.len());
    let limit: usize = if o.top_k > 0 {
        o.top_k
    } else {
        at.len()
    };
    let chosen = top(&at, &keys, limit);
    let ghost want = hits_of(dv, scores@, ov);
    let mut out: Vec<SearchResult> = Vec::new();
    let mut k: usize = 0;
    assert(places(at@).len() == at@.len());
    assert(want.len() == chosen@.len());
    assert(out.deep_view() =~= want.take(0));
    while k < chosen.len()
        invariant
            k <= chosen@.len(),
            docs@.len() == scores@.len(),
            dv == docs.deep_view(),
            ov == o.deep_view(),
            want == hits_of(dv, scores@, ov),
            want.len() == chosen@.len(),
            places(chosen@) == top_of(
                admitted_places(dv, scores@, ov),
                keys_at(scores@, admitted_places(dv, scores@, ov)),
                limit_of(ov, admitted_places(dv, scores@, ov).len() as int),
            ),
            forall|j: int| 0 <= j < chosen@.len() ==> at@.contains(#[trigger] chosen@[j]),
            forall|j: int| 0 <= j < at@.len() ==> #[trigger] at@[j] < docs@.len(),
            out.deep_view() == want.take(k as int),
        decreases chosen@.len() - k,
    {
        let ghost before = out.deep_view();
        let p: usize = chosen[k];
        proof {
            assert(at@.contains(chosen@[k as int]));
            let q = choose|q: int| 0 <= q < at@.len() && at@[q] == p;
            assert(at@[q] < docs@.len());
            assert(places(chosen@)[k as int] == p as int);
        }
        let h = as_hit(&docs[p], scores[p]);
        let ghost hv = h.deep_view();
        out.push(h);
        proof {
            assert(dv[p as int] == docs@[p as int].deep_view());
            assert(want[k as int] == hv);
            assert(out.deep_view() =~= before.push(hv));
            assert(want.take(k + 1) =~= want.take(k as int).push(want[k as int]));
        }
        k += 1;
    }
    assert(want.take(k as int) =~= want);
    out
}

/// The content hashes of the file documents, by path; of several the last one
/// in the store counts.
pub open spec fn hashes_of(docs: Seq<VectorDocumentView>) -> Map<Seq<char>, Seq<char>>
    decreases docs.len(),
{
    if docs.len() == 0 {
        Map::<Seq<char>, Seq<char>>::empty()
    } else {
        let d = docs.last();
        let rest = hashes_of(docs.drop_last());
        match (d.chunk_kind, d.content_hash) {
            (ChunkKind::File, Some(h)) => rest.insert(d.file_path, h),
            _ => rest,
        }
    }
}

/// How many documents a file has.
pub open spec fn count_of(docs: Seq<VectorDocumentView>, path: Seq<char>) -> nat
    decreases docs.len(),
{
    if docs.len() == 0 {
        0
    } else {
        count_of(docs.drop_last(), path) + if docs.last().file_path == path {
            1nat
        } else {
            0nat
        }
    }
}

/// A document, marked as used where it belongs to the file.
pub open spec fn touched(d: VectorDocumentView, path: Seq<char>, ts: i64) -> VectorDocumentView {
    if d.file_path == path {
        VectorDocumentView { last_used_at: Some(ts), ..d }
    } else {
        d
    }
}

/// All documents, those of the file marked as used.
pub open spec fn all_touched(docs: Seq<VectorDocumentView>, path: Seq<char>, ts: i64) -> Seq<
    VectorDocumentView,
> {
    docs.map_values(|d: VectorDocumentView| touched(d, path, ts))
}

fn count_docs(docs: &Vec<VectorDocument>, path: &str) -> (r: usize)
    ensures
        r == count_of(docs.deep_view(), path@),
{
    let ghost dv = docs.deep_view();
    let mut n: usize = 0;
    let mut i: usize = 0;
    while i < docs.len()
        invariant
            i <= docs@.len(),
            dv == docs.deep_view(),
            n == count_of(dv.take(i as int), path@),
            n <= i,
        decreases docs@.len() - i,
    {
        proof {
            assert(dv.take(i + 1).drop_last() =~= dv.take(i as int));
            assert(dv.take(i + 1).last() == docs@[i as int].deep_view());
        }
        if same(docs[i].file_path.as_str(), path) {
            n += 1;
        }
        i += 1;
    }
    assert(dv.take(i as int) =~= dv);
    n
}

fn touch(docs: &Vec<VectorDocument>, path: &str, ts: i64) -> (r: Vec<VectorDocument>)
    ensures
        r.deep_view() == all_touched(docs.deep_view(), path@, ts),
{
    let ghost want = all_touched(docs.deep_view(), path@, ts);
    let mut out: Vec<VectorDocument> = Vec::new();
    let mut i: usize = 0;
    assert(out.deep_view() =~= want.take(0));
    while i < docs.len()
        invariant
            i <= docs@.len(),
            want == all_touched(docs.deep_view(), path@, ts),
            out.deep_view() == want.take(i as int),
        decreases docs@.len() - i,
    {
        let ghost before = out.deep_view();
        let mut d = docs[i].clone();
        if same(d.file_path.as_str(), path) {
            d.last_used_at = Some(ts);
        }
        let ghost one = d.deep_view();
        out.push(d);
        proof {
            assert(one == touched(docs@[i as int].deep_view(), path@, ts));
            assert(want[i as int] == one);
            assert(out.deep_view() =~= before.push(one));
            assert(want.take(i + 1) =~= want.take(i as int).push(want[i as int]));
        }
        i += 1;
    }
    assert(want.take(i as int) =~= want);
    out
}

fn hashes(docs: &Vec<VectorDocument>) -> (r: TextMap)
    ensures
        r@ == hashes_of(docs.deep_view()),
{
    let ghost dv = docs.deep_view();
    let mut out = TextMap::new();
    let mut i: usize = 0;
    assert(out@ =~= hashes_of(dv.take(0)));
    while i < docs.len()
        invariant
            i <= docs@.len(),
            dv == docs.deep_view(),
            out@ == hashes_of(dv.take(i as int)),
        decreases docs@.len() - i,
    {
        let d = &docs[i];
        proof {
            assert(dv.take(i + 1).drop_last() =~= dv.take(i as int));
            assert(dv.take(i + 1).last() == d.deep_view());
        }
        if d.chunk_kind == ChunkKind::File {
            if let Some(h) = &d.content_hash {
                out.insert(d.file_path.as_str(), h.as_str());
            }
        }
        i += 1;
    }
    assert(dv.take(i as int) =~= dv);
    out
}

// ---------------------------------------------------------------------------
// The store
// ---------------------------------------------------------------------------

/// The namespaces but for those of that name.
pub open spec fn other_spaces(name: Seq<char>) -> spec_fn(MockNamespaceView) -> bool {
    |s: MockNamespaceView| s.name != name
}

/// A store whose namespace at `k` holds other documents.
pub open spec fn with_documents(
    store: MockVectorStoreView,
    k: int,
    docs: Seq<VectorDocumentView>,
) -> MockVectorStoreView {
    MockVectorStoreView {
        namespaces: store.namespaces.update(
            k,
            MockNamespaceView { documents: docs, ..store.namespaces[k] },
        ),
    }
}

/// A store whose namespace at `k` has other metadata.
pub open spec fn with_metadata(
    store: MockVectorStoreView,
    k: int,
    metadata: NamespaceMetadataView,
) -> MockVectorStoreView {
    MockVectorStoreView {
        namespaces: store.namespaces.update(
            k,
            MockNamespaceView { metadata, ..store.namespaces[k] },
        ),
    }
}

/// Where the namespace of that name stands in a store.
pub open spec fn place_of(store: MockVectorStoreView, ns: Namespace) -> Option<int> {
    space_at(store.namespaces, ns.name@)
}

/// Whether an operation failed in that way.
pub open spec fn fails_with<T>(r: Result<T, StoreFailure>, e: StoreFailureView) -> bool {
    match r {
        Ok(_) => false,
        Err(x) => x.deep_view() == e,
    }
}

/// The failure of a namespace that is not there.
pub open spec fn not_found(ns: Namespace) -> StoreFailureView {
    StoreFailureView::NotFound { name: ns.name@ }
}

impl Default for MockVectorStore {
    fn default() -> (r: MockVectorStore)
        ensures
            r.deep_view().namespaces == Seq::<MockNamespaceView>::empty(),
    {
        MockVectorStore::new()
    }
}

impl MockVectorStore {
    /// A store without namespaces.
    pub fn new() -> (r: MockVectorStore)
        ensures
            r.deep_view().namespaces == Seq::<MockNamespaceView>::empty(),
    {
        let r = MockVectorStore { namespaces: Vec::new() };
        assert(r.namespaces.deep_view() =~= Seq::<MockNamespaceView>::empty());
        r
    }

    fn find(&self, ns: &Namespace) -> (r: Option<usize>)
        ensures
            match r {
                Some(k) => place_of(self.deep_view(), *ns) == Some(k as int) && k
                    < self.namespaces@.len() && self.deep_view().namespaces[k as int]
                    == self.namespaces@[k as int].deep_view(),
                None => place_of(self.deep_view(), *ns) is None,
            },
    {
        let ghost sv = self.deep_view().namespaces;
        let mut i: usize = 0;
        while i < self.namespaces.len()
            invariant
                i <= self.namespaces@.len(),
                sv == self.deep_view().namespaces,
                space_at(sv, ns.name@) == space_from(sv, ns.name@, i as int),
            decreases self.namespaces@.len() - i,
        {
            assert(sv[i as int] == self.namespaces@[i as int].deep_view());
            if same(self.namespaces[i].name.as_str(), ns.as_str()) {
                return Some(i);
            }
            i += 1;
        }
        assert(sv.len() == self.namespaces@.len());
        None
    }

    fn put_documents(&mut self, k: usize, docs: Vec<VectorDocument>)
        requires
            k < old(self).namespaces@.len(),
        ensures
            final(self).deep_view() == with_documents(
                old(self).deep_view(),
                k as int,
                docs.deep_view(),
            ),
    {
        let ghost sv = self.namespaces.deep_view();
        let old_space = self.namespaces.remove(k);
        let s = MockNamespace {
            name: old_space.name,
            dimension: old_space.dimension,
            metadata: old_space.metadata,
            documents: docs,
        };
        let ghost one = s.deep_view();
        self.namespaces.insert(k, s);
        assert(self.namespaces.deep_view() =~= sv.update(k as int, one));
    }

    /// How many documents of a file there are.
    pub fn document_count(&self, ns: &Namespace, file_path: &str) -> (r: usize)
        ensures
            r == match place_of(self.deep_view(), *ns) {
                Some(k) => count_of(self.deep_view().namespaces[k].documents, file_path@),
                None => 0,
            },
    {
        match self.find(ns) {
            Some(k) => count_docs(&self.namespaces[k].documents, file_path),
            None => 0,
        }
    }

    /// Makes an empty namespace; an existing one is left as it is.
    pub fn create_namespace(&mut self, ns: &Namespace, dimension: usize) -> (r: Result<
        (),
        StoreFailure,
    >)
        ensures
            match r {
                Ok(_) => place_of(old(self).deep_view(), *ns) is None
                    && final(self).deep_view().namespaces == old(self).deep_view().namespaces.push(
                    (MockNamespaceView {
                        name: ns.name@,
                        dimension,
                        metadata: NamespaceMetadataView {
                            hwm_sha: None,
                            embedder: None,
                            extra: Map::<Seq<char>, Seq<char>>::empty(),
                        },
                        documents: Seq::<VectorDocumentView>::empty(),
                    }),
                ),
                Err(e) => place_of(old(self).deep_view(), *ns) is Some && final(self).deep_view()
                    == old(self).deep_view() && e.deep_view() == (StoreFailureView::AlreadyExists {
                    name: ns.name@,
                }),
            },
    {
        if self.find(ns).is_some() {
            return Err(StoreFailure::AlreadyExists { name: ns.name.clone() });
        }
        let ghost sv = self.namespaces.deep_view();
        let s = MockNamespace {
            name: ns.as_str().to_string(),
            dimension,
            metadata: NamespaceMetadata::default(),
            documents: Vec::new(),
        };
        assert(s.documents.deep_view() =~= Seq::<VectorDocumentView>::empty());
        let ghost one = s.deep_view();
        self.namespaces.push(s);
        assert(self.namespaces.deep_view() =~= sv.push(one));
        Ok(())
    }

    /// Removes a namespace and all it holds; one that is not there is no failure.
    pub fn delete_namespace(&mut self, ns: &Namespace)
        ensures
            final(self).deep_view().namespaces == old(self).deep_view().namespaces.filter(
                other_spaces(ns.name@),
            ),
    {
        let ghost sv = self.namespaces.deep_view();
        let ghost p = other_spaces(ns.name@);
        let mut out: Vec<MockNamespace> = Vec::new();
        let mut i: usize = 0;
        proof {
            reveal(Seq::filter);
            assert(out.deep_view() =~= sv.take(0).filter(p));
        }
        while i < self.namespaces.len()
            invariant
                i <= self.namespaces@.len(),
                sv == self.namespaces.deep_view(),
                p == other_spaces(ns.name@),
                out.deep_view() == sv.take(i as int).filter(p),
            decreases self.namespaces@.len() - i,
        {
            proof {
                reveal(Seq::filter);
                assert(sv.take(i + 1).drop_last() =~= sv.take(i as int));
                assert(sv.take(i + 1).last() == self.namespaces@[i as int].deep_view());
            }
            if !same(self.namespaces[i].name.as_str(), ns.as_str()) {
                let ghost before = out.deep_view();
                let s = self.namespaces[i].clone();
                let ghost one = s.deep_view();
                out.push(s);
                assert(out.deep_view() =~= before.push(one));
            }
            i += 1;
        }
        assert(sv.take(i as int) =~= sv);
        self.namespaces = out;
    }

    /// Whether there is such a namespace.
    pub fn namespace_exists(&self, ns: &Namespace) -> (r: bool)
        ensures
            r == (place_of(self.deep_view(), *ns) is Some),
    {
        self.find(ns).is_some()
    }

    /// The metadata of a namespace.
    pub fn get_metadata(&self, ns: &Namespace) -> (r: Result<NamespaceMetadata, StoreFailure>)
        ensures
            match place_of(self.deep_view(), *ns) {
                Some(k) => r matches Ok(m) && m.deep_view()
                    == self.deep_view().namespaces[k].metadata,
                None => fails_with(r, not_found(*ns)),
            },
    {
        match self.find(ns) {
            Some(k) => Ok(self.namespaces[k].metadata.clone()),
            None => Err(StoreFailure::NotFound { name: ns.name.clone() }),
        }
    }

    /// Replaces the metadata of a namespace.
    pub fn set_metadata(&mut self, ns: &Namespace, meta: &NamespaceMetadata) -> (r: Result<
        (),
        StoreFailure,
    >)
        ensures
            match place_of(old(self).deep_view(), *ns) {
                Some(k) => r is Ok && final(self).deep_view() == with_metadata(
                    old(self).deep_view(),
                    k,
                    meta.deep_view(),
                ),
                None => final(self).deep_view() == old(self).deep_view() && fails_with(
                    r,
                    not_found(*ns),
                ),
            },
    {
        match self.find(ns) {
            Some(k) => {
                let ghost sv = self.namespaces.deep_view();
                let old_space = self.namespaces.remove(k);
                let s = MockNamespace {
                    name: old_space.name,
                    dimension: old_space.dimension,
                    metadata: meta.clone(),
                    documents: old_space.documents,
                };
                let ghost one = s.deep_view();
                self.namespaces.insert(k, s);
                assert(self.namespaces.deep_view() =~= sv.update(k as int, one));
                Ok(())
            },
            None => Err(StoreFailure::NotFound { name: ns.name.clone() }),
        }
    }

    /// Writes documents, each in place of the one of the same id. At the first
    /// vector of a wrong length it stops; what was written before stays.
    pub fn upsert(&mut self, ns: &Namespace, docs: &Vec<VectorDocument>) -> (r: Result<
        UpsertStats,
        StoreFailure,
    >)
        ensures
            match place_of(old(self).deep_view(), *ns) {
                Some(k) => {
                    let s = old(self).deep_view().namespaces[k];
                    let new = docs.deep_view();
                    let n = first_misfit(new, s.dimension as int, 0);
                    &&& final(self).deep_view() == with_documents(
                        old(self).deep_view(),
                        k,
                        stored_all(s.documents, new.take(n)),
                    )
                    &&& if n == new.len() {
                        r matches Ok(stats) && stats.upserted == new.len() && stats.skipped == 0
                    } else {
                        r matches Err(e) && e.deep_view() == (StoreFailureView::Dimension {
                            expected: s.dimension,
                            got: new[n].vector.len() as usize,
                        })
                    }
                },
                None => final(self).deep_view() == old(self).deep_view() && fails_with(
                    r,
                    not_found(*ns),
                ),
            },
    {
        let k: usize = match self.find(ns) {
            Some(k) => k,
            None => {
                return Err(StoreFailure::NotFound { name: ns.name.clone() });
            },
        };
        let dimension: usize = self.namespaces[k].dimension;
        let mut all = self.namespaces[k].documents.clone();
        let ghost start = all.deep_view();
        let ghost new = docs.deep_view();
        assert(new.len() == docs@.len());
        let mut i: usize = 0;
        assert(new.take(0) =~= Seq::<VectorDocumentView>::empty());
        while i < docs.len()
            invariant
                i <= docs@.len(),
                new == docs.deep_view(),
                new.len() == docs@.len(),
                first_misfit(new, dimension as int, 0) == first_misfit(
                    new,
                    dimension as int,
                    i as int,
                ),
                all.deep_view() == stored_all(start, new.take(i as int)),
                k < self.namespaces@.len(),
                self.deep_view() == old(self).deep_view(),
                place_of(old(self).deep_view(), *ns) == Some(k as int),
                dimension == old(self).deep_view().namespaces[k as int].dimension,
                start == old(self).deep_view().namespaces[k as int].documents,
            decreases docs@.len() - i,
        {
            let d = docs[i].clone();
            proof {
                assert(new[i as int] == docs@[i as int].deep_view());
                assert(d.vector.deep_view().len() == d.vector@.len());
            }
            let got: usize = d.vector.len();
            if got != dimension {
                self.put_documents(k, all);
                return Err(StoreFailure::Dimension { expected: dimension, got });
            }
            put(&mut all, d);
            proof {
                assert(new.take(i + 1).drop_last() =~= new.take(i as int));
                assert(new.take(i + 1).last() == new[i as int]);
            }
            i += 1;
        }
        self.put_documents(k, all);
        Ok(UpsertStats { upserted: docs.len(), skipped: 0 })
    }

    fn filtered(&mut self, k: usize, keep: &Vec<bool>) -> (r: usize)
        requires
            k < old(self).namespaces@.len(),
            keep@.len() == old(self).namespaces@[k as int].documents@.len(),
        ensures
            final(self).deep_view() == with_documents(
                old(self).deep_view(),
                k as int,
                kept(old(self).namespaces@[k as int].documents.deep_view(), keep@),
            ),
            r == kept(old(self).namespaces@[k as int].documents.deep_view(), keep@).len(),
    {
        let docs = retain(&self.namespaces[k].documents, keep);
        let left: usize = docs.len();
        assert(docs.deep_view().len() == left);
        self.put_documents(k, docs);
        left
    }

    /// Removes the documents of these ids.
    pub fn delete_by_ids(&mut self, ns: &Namespace, ids: &Vec<String>) -> (r: Result<
        (),
        StoreFailure,
    >)
        ensures
            match place_of(old(self).deep_view(), *ns) {
                Some(k) => r is Ok && final(self).deep_view() == with_documents(
                    old(self).deep_view(),
                    k,
                    old(self).deep_view().namespaces[k].documents.filter(
                        of_other_ids(ids.deep_view()),
                    ),
                ),
                None => final(self).deep_view() == old(self).deep_view() && fails_with(
                    r,
                    not_found(*ns),
                ),
            },
    {
        let k: usize = match self.find(ns) {
            Some(k) => k,
            None => {
                return Err(StoreFailure::NotFound { name: ns.name.clone() });
            },
        };
        let ghost p = of_other_ids(ids.deep_view());
        let docs = &self.namespaces[k].documents;
        let ghost dv = docs.deep_view();
        let mut keep: Vec<bool> = Vec::new();
        let mut i: usize = 0;
        while i < docs.len()
            invariant
                i <= docs@.len(),
                keep@.len() == i,
                dv == docs.deep_view(),
                p == of_other_ids(ids.deep_view()),
                forall|j: int| 0 <= j < i ==> #[trigger] keep@[j] == p(dv[j]),
            decreases docs@.len() - i,
        {
            assert(dv[i as int] == docs@[i as int].deep_view());
            keep.push(!has_text(ids, docs[i].id.as_str()));
            i += 1;
        }
        proof {
            assert(dv.len() == docs@.len());
            lemma_kept(dv, keep@, p);
        }
        self.filtered(k, &keep);
        Ok(())
    }

    /// Removes the documents of a file.
    pub fn delete_by_file(&mut self, ns: &Namespace, file_path: &str) -> (r: Result<
        (),
        StoreFailure,
    >)
        ensures
            match place_of(old(self).deep_view(), *ns) {
                Some(k) => r is Ok && final(self).deep_view() == with_documents(
                    old(self).deep_view(),
                    k,
                    old(self).deep_view().namespaces[k].documents.filter(
                        of_other_files(file_path@),
                    ),
                ),
                None => final(self).deep_view() == old(self).deep_view() && fails_with(
                    r,
                    not_found(*ns),
                ),
            },
    {
        let k: usize = match self.find(ns) {
            Some(k) => k,
            None => {
                return Err(StoreFailure::NotFound { name: ns.name.clone() });
            },
        };
        let ghost p = of_other_files(file_path@);
        let docs = &self.namespaces[k].documents;
        let ghost dv = docs.deep_view();
        let mut keep: Vec<bool> = Vec::new();
        let mut i: usize = 0;
        while i < docs.len()
            invariant
                i <= docs@.len(),
                keep@.len() == i,
                dv == docs.deep_view(),
                p == of_other_files(file_path@),
                forall|j: int| 0 <= j < i ==> #[trigger] keep@[j] == p(dv[j]),
            decreases docs@.len() - i,
        {
            assert(dv[i as int] == docs@[i as int].deep_view());
            keep.push(!same(docs[i].file_path.as_str(), file_path));
            i += 1;
        }
        proof {
            assert(dv.len() == docs@.len());
            lemma_kept(dv, keep@, p);
        }
        self.filtered(k, &keep);
        Ok(())
    }

    /// Removes the documents whose path matches a pattern, and says how many.
    pub fn delete_by_glob(&mut self, ns: &Namespace, pattern: &str) -> (r: Result<
        usize,
        StoreFailure,
    >)
        ensures
            match (glob_failure(pattern@), place_of(old(self).deep_view(), *ns)) {
                (Some(cause), _) => final(self).deep_view() == old(self).deep_view() && fails_with(
                    r,
                    StoreFailureView::InvalidGlob { cause },
                ),
                (None, None) => final(self).deep_view() == old(self).deep_view() && fails_with(
                    r,
                    not_found(*ns),
                ),
                (None, Some(k)) => {
                    let docs = old(self).deep_view().namespaces[k].documents;
                    &&& final(self).deep_view() == with_documents(
                        old(self).deep_view(),
                        k,
                        docs.filter(unmatched(pattern@)),
                    )
                    &&& r matches Ok(n) && n == docs.len() - docs.filter(unmatched(pattern@)).len()
                },
            },
    {
        let set = match compile_glob(pattern) {
            Ok(s) => s,
            Err(cause) => {
                return Err(StoreFailure::InvalidGlob { cause });
            },
        };
        let k: usize = match self.find(ns) {
            Some(k) => k,
            None => {
                return Err(StoreFailure::NotFound { name: ns.name.clone() });
            },
        };
        let ghost p = unmatched(pattern@);
        let docs = &self.namespaces[k].documents;
        let before: usize = docs.len();
        let ghost dv = docs.deep_view();
        let mut keep: Vec<bool> = Vec::new();
        let mut i: usize = 0;
        while i < docs.len()
            invariant
                i <= docs@.len(),
                keep@.len() == i,
                dv == docs.deep_view(),
                globs_of(set) == seq![(pattern@, false)],
                p == unmatched(pattern@),
                forall|j: int| 0 <= j < i ==> #[trigger] keep@[j] == p(dv[j]),
            decreases docs@.len() - i,
        {
            assert(dv[i as int] == docs@[i as int].deep_view());
            let hit = set_matches(&set, docs[i].file_path.as_str());
            assert(hit == any_glob_matches(globs_of(set), docs@[i as int].file_path@));
            keep.push(!hit);
            i += 1;
        }
        proof {
            assert(dv.len() == docs@.len());
            lemma_kept(dv, keep@, p);
        }
        let left: usize = self.filtered(k, &keep);
        Ok(before - left)
    }

    /// Marks the documents of a file as used, and says how many there are.
    pub fn touch_by_file(&mut self, ns: &Namespace, file_path: &str, ts: i64) -> (r: Result<
        usize,
        StoreFailure,
    >)
        ensures
            match place_of(old(self).deep_view(), *ns) {
                Some(k) => {
                    let docs = old(self).deep_view().namespaces[k].documents;
                    &&& final(self).deep_view() == with_documents(
                        old(self).deep_view(),
                        k,
                        all_touched(docs, file_path@, ts),
                    )
                    &&& r matches Ok(n) && n == count_of(docs, file_path@)
                },
                None => final(self).deep_view() == old(self).deep_view() && fails_with(
                    r,
                    not_found(*ns),
                ),
            },
    {
        match self.find(ns) {
            Some(k) => {
                let updated: usize = count_docs(&self.namespaces[k].documents, file_path);
                let docs = touch(&self.namespaces[k].documents, file_path, ts);
                self.put_documents(k, docs);
                Ok(updated)
            },
            None => Err(StoreFailure::NotFound { name: ns.name.clone() }),
        }
    }

    /// The content hashes of the files.
    pub fn get_content_hashes(&self, ns: &Namespace) -> (r: Result<TextMap, StoreFailure>)
        ensures
            match place_of(self.deep_view(), *ns) {
                Some(k) => r matches Ok(m) && m@ == hashes_of(
                    self.deep_view().namespaces[k].documents,
                ),
                None => fails_with(r, not_found(*ns)),
            },
    {
        match self.find(ns) {
            Some(k) => Ok(hashes(&self.namespaces[k].documents)),
            None => Err(StoreFailure::NotFound { name: ns.name.clone() }),
        }
    }

    /// All documents of a namespace.
    pub fn list_documents(&self, ns: &Namespace) -> (r: Result<Vec<VectorDocument>, StoreFailure>)
        ensures
            match place_of(self.deep_view(), *ns) {
                Some(k) => r matches Ok(docs) && docs.deep_view()
                    == self.deep_view().namespaces[k].documents,
                None => fails_with(r, not_found(*ns)),
            },
    {
        match self.find(ns) {
            Some(k) => Ok(self.namespaces[k].documents.clone()),
            None => Err(StoreFailure::NotFound { name: ns.name.clone() }),
        }
    }

    /// The documents most similar to a query. `scores` says how similar each
    /// document of the namespace is, in the order of `list_documents`.
    pub fn search(&self, ns: &Namespace, scores: &Vec<Score>, opts: &SearchOptions) -> (r: Result<
        Vec<SearchResult>,
        StoreFailure,
    >)
        requires
            place_of(self.deep_view(), *ns) matches Some(k) ==> scores@.len()
                == self.deep_view().namespaces[k].documents.len(),
        ensures
            match place_of(self.deep_view(), *ns) {
                Some(k) => r matches Ok(hits) && hits.deep_view() == hits_of(
                    self.deep_view().namespaces[k].documents,
                    scores@,
                    opts.deep_view(),
                ),
                None => fails_with(r, not_found(*ns)),
            },
    {
        match self.find(ns) {
            Some(k) => {
                assert(self.namespaces@[k as int].documents.deep_view().len()
                    == self.namespaces@[k as int].documents@.len());
                Ok(query(&self.namespaces[k].documents, scores, opts))
            },
            None => Err(StoreFailure::NotFound { name: ns.name.clone() }),
        }
    }
}

// ---------------------------------------------------------------------------
// Laws
// ---------------------------------------------------------------------------

/// Whether no two documents share an id.
pub open spec fn distinct_ids(docs: Seq<VectorDocumentView>) -> bool {
    forall|i: int, j: int|
        0 <= i < j < docs.len() ==> (#[trigger] docs[i]).id != (#[trigger] docs[j]).id
}

/// The document of that id among those written, the last one counting.
pub open spec fn last_written(more: Seq<VectorDocumentView>, id: Seq<char>) -> Option<
    VectorDocumentView,
>
    decreases more.len(),
{
    if more.len() == 0 {
        None
    } else if more.last().id == id {
        Some(more.last())
    } else {
        last_written(more.drop_last(), id)
    }
}

proof fn lemma_lookup(docs: Seq<VectorDocumentView>, id: Seq<char>, k: int)
    requires
        0 <= k < docs.len(),
        docs[k].id == id,
        forall|j: int| 0 <= j < k ==> (#[trigger] docs[j]).id != id,
    ensures
        lookup(docs, id) == Some(docs[k]),
{
    lemma_doc_from(docs, id, 0);
}

proof fn lemma_stored(docs: Seq<VectorDocumentView>, d: VectorDocumentView, id: Seq<char>)
    ensures
        lookup(stored(docs, d), id) == if id == d.id {
            Some(d)
        } else {
            lookup(docs, id)
        },
        distinct_ids(docs) ==> distinct_ids(stored(docs, d)),
{
    let after = stored(docs, d);
    lemma_doc_from(docs, d.id, 0);
    lemma_doc_from(docs, id, 0);
    lemma_doc_from(after, id, 0);
    match doc_from(docs, d.id, 0) {
        Some(k) => {
            assert(forall|j: int| 0 <= j < docs.len() ==> (#[trigger] after[j]).id == docs[j].id);
            if id == d.id {
                lemma_lookup(after, id, k);
            } else {
                match doc_from(docs, id, 0) {
                    Some(m) => {
                        lemma_lookup(after, id, m);
                    },
                    None => {},
                }
            }
        },
        None => {
            if id == d.id {
                assert(after[docs.len() as int].id == id);
                lemma_lookup(after, id, docs.len() as int);
            } else {
                match doc_from(docs, id, 0) {
                    Some(m) => {
                        assert(after[m] == docs[m]);
                        lemma_lookup(after, id, m);
                    },
                    None => {
                        assert(forall|j: int|
                            0 <= j < after.len() ==> (#[trigger] after[j]).id != id);
                    },
                }
            }
        },
    }
}

/// A read after a write gives back what was written last under that id; what
/// was not written stays as it was, and ids stay distinct.
pub proof fn law_reads_see_writes(
    docs: Seq<VectorDocumentView>,
    more: Seq<VectorDocumentView>,
    id: Seq<char>,
)
    ensures
        lookup(stored_all(docs, more), id) == match last_written(more, id) {
            Some(d) => Some(d),
            None => lookup(docs, id),
        },
        distinct_ids(docs) ==> distinct_ids(stored_all(docs, more)),
    decreases more.len(),
{
    if more.len() > 0 {
        law_reads_see_writes(docs, more.drop_last(), id);
        lemma_stored(stored_all(docs, more.drop_last()), more.last(), id);
    }
}

/// After documents are removed, none of theirs is left, every other one is
/// still there, and ids stay distinct.
pub proof fn law_removal(
    docs: Seq<VectorDocumentView>,
    p: spec_fn(VectorDocumentView) -> bool,
    d: VectorDocumentView,
)
    ensures
        docs.filter(p).contains(d) <==> docs.contains(d) && p(d),
        distinct_ids(docs) ==> distinct_ids(docs.filter(p)),
    decreases docs.len(),
{
    reveal(Seq::filter);
    if docs.len() > 0 {
        let rest = docs.drop_last();
        law_removal(rest, p, d);
        let f = rest.filter(p);
        let last = docs.last();
        assert(docs.contains(d) <==> rest.contains(d) || d == last) by {
            if docs.contains(d) {
                let i = choose|i: int| 0 <= i < docs.len() && docs[i] == d;
                if i < rest.len() {
                    assert(rest[i] == d);
                }
            }
            if rest.contains(d) {
                let i = choose|i: int| 0 <= i < rest.len() && rest[i] == d;
                assert(docs[i] == d);
            }
            assert(docs[docs.len() - 1] == last);
        }
        if p(last) {
            assert(f.push(last).contains(d) <==> f.contains(d) || d == last) by {
                if f.push(last).contains(d) {
                    let i = choose|i: int| 0 <= i < f.len() + 1 && f.push(last)[i] == d;
                    if i < f.len() {
                        assert(f[i] == d);
                    }
                }
                if f.contains(d) {
                    let i = choose|i: int| 0 <= i < f.len() && f[i] == d;
                    assert(f.push(last)[i] == d);
                }
                assert(f.push(last)[f.len() as int] == last);
            }
        }
        if distinct_ids(docs) {
            assert(distinct_ids(rest)) by {
                assert forall|i: int, j: int| 0 <= i < j < rest.len() implies (
                #[trigger] rest[i]).id != (#[trigger] rest[j]).id by {
                    assert(docs[i].id != docs[j].id);
                }
            }
            if p(last) {
                assert forall|i: int| 0 <= i < f.len() implies (#[trigger] f[i]).id != last.id by {
                    law_removal(rest, p, f[i]);
                    assert(f.contains(f[i]));
                    let k = choose|k: int| 0 <= k < rest.len() && rest[k] == f[i];
                    assert(docs[k].id != docs[docs.len() - 1].id);
                }
            }
        }
    } else {
        assert(docs.filter(p) =~= docs);
    }
}

/// What is done to one namespace leaves the others as they are.
pub proof fn law_namespaces_are_apart(
    store: MockVectorStoreView,
    ns: Seq<char>,
    other: Seq<char>,
    docs: Seq<VectorDocumentView>,
)
    requires
        ns != other,
        space_at(store.namespaces, ns) is Some,
    ensures
        ({
            let k = space_at(store.namespaces, ns)->0;
            let after = with_documents(store, k, docs);
            &&& space_at(after.namespaces, other) == space_at(store.namespaces, other)
            &&& space_at(store.namespaces, other) matches Some(m) ==> after.namespaces[m]
                == store.namespaces[m]
            &&& space_at(after.namespaces, ns) == Some(k)
            &&& after.namespaces[k].documents == docs
        }),
{
    let k = space_at(store.namespaces, ns)->0;
    let after = with_documents(store, k, docs);
    lemma_space_from(store.namespaces, ns, 0);
    lemma_space_from(store.namespaces, other, 0);
    lemma_space_from(after.namespaces, ns, 0);
    lemma_space_from(after.namespaces, other, 0);
    assert(forall|j: int|
        0 <= j < after.namespaces.len() ==> (#[trigger] after.namespaces[j]).name
            == store.namespaces[j].name);
    let a = space_at(after.namespaces, other);
    let b = space_at(store.namespaces, other);
    if a is Some {
        assert(store.namespaces[a->0].name == other);
    }
    if b is Some {
        assert(after.namespaces[b->0].name == other);
    }
    let c = space_at(after.namespaces, ns);
    assert(after.namespaces[k].name == ns);
    if c is Some {
        assert(store.namespaces[c->0].name == ns);
    }
}

/// A namespace that was deleted is gone, and the others are not.
pub proof fn law_deleted_namespaces_are_gone(
    spaces: Seq<MockNamespaceView>,
    ns: Seq<char>,
    other: MockNamespaceView,
)
    ensures
        space_at(spaces.filter(other_spaces(ns)), ns) is None,
        other.name != ns && spaces.contains(other) ==> spaces.filter(other_spaces(ns)).contains(
            other,
        ),
{
    let p = other_spaces(ns);
    let left = spaces.filter(p);
    lemma_space_from(left, ns, 0);
    if let Some(k) = space_at(left, ns) {
        spaces.lemma_filter_pred(p, k);
    }
    if other.name != ns && spaces.contains(other) {
        let i = choose|i: int| 0 <= i < spaces.len() && spaces[i] == other;
        spaces.lemma_filter_contains(p, i);
    }
}

proof fn lemma_admitted_upto(
    docs: Seq<VectorDocumentView>,
    scores: Seq<Score>,
    o: SearchOptionsView,
    n: int,
)
    requires
        0 <= n <= docs.len(),
    ensures
        forall|k: int|
            0 <= k < admitted_upto(docs, scores, o, n).len() ==> {
                let i = #[trigger] admitted_upto(docs, scores, o, n)[k];
                0 <= i < n && admitted(docs[i], scores[i], o)
            },
    decreases n,
{
    if n > 0 {
        lemma_admitted_upto(docs, scores, o, n - 1);
        let before = admitted_upto(docs, scores, o, n - 1);
        let all = admitted_upto(docs, scores, o, n);
        assert forall|k: int| 0 <= k < all.len() implies {
            let i = #[trigger] all[k];
            0 <= i < n && admitted(docs[i], scores[i], o)
        } by {
            if k < before.len() {
                assert(all[k] == before[k]);
            }
        }
    }
}

/// Whether a hit is a document that the query admits.
pub open spec fn is_admitted_hit(
    docs: Seq<VectorDocumentView>,
    scores: Seq<Score>,
    o: SearchOptionsView,
    h: SearchResultView,
) -> bool {
    exists|i: int|
        0 <= i < docs.len() && admitted(#[trigger] docs[i], scores[i], o) && h == hit_of(
            docs[i],
            scores[i],
        )
}

/// A query gives at most as many hits as it asks for, by descending similarity,
/// and each is a document that it admits.
pub proof fn law_search(docs: Seq<VectorDocumentView>, scores: Seq<Score>, o: SearchOptionsView)
    requires
        scores.len() == docs.len(),
    ensures
        o.top_k > 0 ==> hits_of(docs, scores, o).len() <= o.top_k,
        forall|a: int, b: int|
            0 <= a < b < hits_of(docs, scores, o).len() ==> (#[trigger] hits_of(
                docs,
                scores,
                o,
            )[a]).score.key() >= (#[trigger] hits_of(docs, scores, o)[b]).score.key(),
        forall|a: int|
            0 <= a < hits_of(docs, scores, o).len() ==> is_admitted_hit(
                docs,
                scores,
                o,
                #[trigger] hits_of(docs, scores, o)[a],
            ),
{
    let at = admitted_places(docs, scores, o);
    let keys = keys_at(scores, at);
    let n = limit_of(o, at.len() as int);
    lemma_admitted_upto(docs, scores, o, docs.len() as int);
    law_top(at, keys, n);
    let t = top_of(at, keys, n);
    let h = hits_of(docs, scores, o);
    let order = ranked(keys);
    crate::rank::law_ranked(keys, keys.len() as int);
    assert forall|a: int, b: int| 0 <= a < b < h.len() implies (#[trigger] h[a]).score.key() >= (
    #[trigger] h[b]).score.key() by {
        assert(0 <= order[a] < at.len() && t[a] == at[order[a]]);
        assert(0 <= order[b] < at.len() && t[b] == at[order[b]]);
        assert(keys[order[a]] >= keys[order[b]]);
    }
    assert forall|a: int| 0 <= a < h.len() implies is_admitted_hit(
        docs,
        scores,
        o,
        #[trigger] h[a],
    ) by {
        assert(0 <= order[a] < at.len() && t[a] == at[order[a]]);
        let i = at[order[a]];
        assert(admitted(docs[i], scores[i], o));
    }
}

proof fn lemma_admitted_is_placed(
    docs: Seq<VectorDocumentView>,
    scores: Seq<Score>,
    o: SearchOptionsView,
    n: int,
    i: int,
)
    requires
        0 <= i < n <= docs.len(),
        admitted(docs[i], scores[i], o),
    ensures
        admitted_upto(docs, scores, o, n).contains(i),
    decreases n,
{
    let all = admitted_upto(docs, scores, o, n);
    if i == n - 1 {
        assert(all[all.len() - 1] == i);
    } else {
        let head = admitted_upto(docs, scores, o, n - 1);
        lemma_admitted_is_placed(docs, scores, o, n - 1, i);
        let k = choose|k: int| 0 <= k < head.len() && head[k] == i;
        assert(all[k] == i);
    }
}

/// No better document is left out: one that a query admits is among the hits, or
/// as many hits as asked for score at least as high.
pub proof fn law_best_documents_are_found(
    docs: Seq<VectorDocumentView>,
    scores: Seq<Score>,
    o: SearchOptionsView,
    i: int,
)
    requires
        scores.len() == docs.len(),
        0 <= i < docs.len(),
        admitted(docs[i], scores[i], o),
    ensures
        ({
            let h = hits_of(docs, scores, o);
            h.contains(hit_of(docs[i], scores[i])) || (o.top_k > 0 && h.len() == o.top_k && forall|
                a: int,
            |
                0 <= a < h.len() ==> (#[trigger] h[a]).score.key() >= scores[i].key())
        }),
{
    let at = admitted_places(docs, scores, o);
    let keys = keys_at(scores, at);
    let n = limit_of(o, at.len() as int);
    let order = ranked(keys);
    let h = hits_of(docs, scores, o);
    lemma_admitted_is_placed(docs, scores, o, docs.len() as int, i);
    let k = choose|k: int| 0 <= k < at.len() && at[k] == i;
    crate::rank::law_ranked(keys, keys.len() as int);
    law_top(at, keys, n);
    assert(order.contains(k));
    let r = choose|r: int| 0 <= r < order.len() && order[r] == k;
    let t = top_of(at, keys, n);
    if r < h.len() {
        assert(t[r] == at[order[r]]);
        assert(h[r] == hit_of(docs[i], scores[i]));
    } else {
        assert forall|a: int| 0 <= a < h.len() implies (#[trigger] h[a]).score.key()
            >= scores[i].key() by {
            assert(0 <= order[a] < at.len() && t[a] == at[order[a]]);
            assert(keys[order[a]] >= keys[order[r]]);
        }
    }
}

/// Whether a query admits a document of that similarity: one of the prefixes, if
/// there are any, begins its path; its kind and its language are those asked for,
/// if any are; and it scores no lower than asked for.
pub open spec fn is_wanted(d: VectorDocumentView, score: Score, o: SearchOptionsView) -> bool {
    &&& o.path_prefixes.len() > 0 ==> exists|i: int|
        0 <= i < o.path_prefixes.len() && has_prefix(d.file_path, #[trigger] o.path_prefixes[i])
    &&& o.chunk_kind matches Some(kind) ==> d.chunk_kind == kind
    &&& o.language matches Some(language) ==> d.language == Some(language)
    &&& o.min_score matches Some(least) ==> !score.nan() && !least.nan() && score.key()
        >= least.key()
}

/// Whether a hit says what its document says, field by field, with its similarity.
pub open spec fn tells_of(h: SearchResultView, d: VectorDocumentView, score: Score) -> bool {
    &&& h.id == d.id
    &&& h.score == score
    &&& h.file_path == d.file_path
    &&& h.chunk_kind == d.chunk_kind
    &&& h.symbol_name == d.symbol_name
    &&& h.symbol_kind == d.symbol_kind
    &&& h.summary == d.summary
    &&& h.start_line == d.start_line
    &&& h.end_line == d.end_line
    &&& h.language == d.language
    &&& h.calls == d.calls
    &&& h.called_by == d.called_by
    &&& h.last_used_at == d.last_used_at
}

proof fn lemma_admitted_ascend(
    docs: Seq<VectorDocumentView>,
    scores: Seq<Score>,
    o: SearchOptionsView,
    n: int,
)
    requires
        0 <= n <= docs.len(),
    ensures
        ({
            let at = admitted_upto(docs, scores, o, n);
            &&& forall|k: int|
                0 <= k < at.len() ==> 0 <= #[trigger] at[k] < n && is_wanted(
                    docs[at[k]],
                    scores[at[k]],
                    o,
                )
            &&& forall|j: int, k: int| 0 <= j < k < at.len() ==> #[trigger] at[j] < #[trigger] at[k]
            &&& forall|i: int|
                0 <= i < n && is_wanted(#[trigger] docs[i], scores[i], o) ==> at.contains(i)
        }),
    decreases n,
{
    if n > 0 {
        lemma_admitted_ascend(docs, scores, o, n - 1);
        let head = admitted_upto(docs, scores, o, n - 1);
        let at = admitted_upto(docs, scores, o, n);
        let d = docs[n - 1];
        assert(admitted(d, scores[n - 1], o) == is_wanted(d, scores[n - 1], o));
        assert forall|i: int| 0 <= i < n && is_wanted(
            #[trigger] docs[i],
            scores[i],
            o,
        ) implies at.contains(i) by {
            if i == n - 1 {
                assert(at[head.len() as int] == i);
            } else {
                let k = choose|k: int| 0 <= k < head.len() && head[k] == i;
                assert(at[k] == i);
            }
        }
    }
}

/// Whether document `i` goes before document `j`: it is more similar, or as similar
/// and was stored first.
pub open spec fn goes_before(scores: Seq<Score>, i: int, j: int) -> bool {
    scores[i].key() > scores[j].key() || (scores[i].key() == scores[j].key() && i < j)
}

/// A query is answered with the documents it admits, each once and as it is stored,
/// the most similar first and those of equal similarity as they were stored; where
/// it asks for a number of them, the others are left out behind them.
pub proof fn law_hits_tell_of_the_best_documents(
    docs: Seq<VectorDocumentView>,
    scores: Seq<Score>,
    o: SearchOptionsView,
)
    requires
        scores.len() == docs.len(),
    ensures
        exists|at: Seq<int>|
            {
                let hits = hits_of(docs, scores, o);
                &&& #[trigger] at.len() == hits.len()
                &&& o.top_k > 0 ==> at.len() <= o.top_k
                &&& forall|k: int|
                    0 <= k < at.len() ==> 0 <= #[trigger] at[k] < docs.len() && is_wanted(
                        docs[at[k]],
                        scores[at[k]],
                        o,
                    ) && tells_of(hits[k], docs[at[k]], scores[at[k]])
                &&& forall|j: int, k: int|
                    0 <= j < k < at.len() ==> goes_before(
                        scores,
                        #[trigger] at[j],
                        #[trigger] at[k],
                    )
                &&& forall|i: int|
                    0 <= i < docs.len() && is_wanted(#[trigger] docs[i], scores[i], o)
                        && !at.contains(i) ==> o.top_k > 0 && at.len() == o.top_k && forall|k: int|
                        0 <= k < at.len() ==> goes_before(scores, #[trigger] at[k], i)
            },
{
    let c = admitted_places(docs, scores, o);
    let keys = keys_at(scores, c);
    let limit = limit_of(o, c.len() as int);
    let order = ranked(keys);
    let at = top_of(c, keys, limit);
    let hits = hits_of(docs, scores, o);
    lemma_admitted_ascend(docs, scores, o, docs.len() as int);
    law_ranked(keys, keys.len() as int);
    law_top(c, keys, limit);
    assert forall|k: int| 0 <= k < at.len() implies 0 <= #[trigger] at[k] < docs.len() && is_wanted(
        docs[at[k]],
        scores[at[k]],
        o,
    ) && tells_of(hits[k], docs[at[k]], scores[at[k]]) by {
        assert(at[k] == c[order[k]]);
    }
    assert forall|j: int, k: int| 0 <= j < k < at.len() implies goes_before(
        scores,
        #[trigger] at[j],
        #[trigger] at[k],
    ) by {
        assert(at[j] == c[order[j]] && at[k] == c[order[k]]);
        assert(crate::rank::outranks(keys, order[j], order[k]));
    }
    assert forall|i: int|
        0 <= i < docs.len() && is_wanted(#[trigger] docs[i], scores[i], o) && !at.contains(
            i,
        ) implies o.top_k > 0 && at.len() == o.top_k && forall|k: int|
        0 <= k < at.len() ==> goes_before(scores, #[trigger] at[k], i) by {
        let q = choose|q: int| 0 <= q < c.len() && c[q] == i;
        assert(order.contains(q));
        let m = choose|m: int| 0 <= m < order.len() && order[m] == q;
        if m < at.len() {
            assert(at[m] == i);
        }
        assert forall|k: int| 0 <= k < at.len() implies goes_before(
            scores,
            #[trigger] at[k],
            i,
        ) by {
            assert(at[k] == c[order[k]]);
            assert(crate::rank::outranks(keys, order[k], order[m]));
        }
    }
    assert(at.len() == hits.len());
}

/// A path has a hash exactly if a file document of it does.
pub proof fn law_hashes_are_those_of_files(docs: Seq<VectorDocumentView>, path: Seq<char>)
    ensures
        hashes_of(docs).contains_key(path) <==> exists|i: int|
            0 <= i < docs.len() && (#[trigger] docs[i]).chunk_kind == ChunkKind::File
                && docs[i].file_path == path && docs[i].content_hash is Some,
    decreases docs.len(),
{
    if docs.len() > 0 {
        let head = docs.drop_last();
        let n = head.len() as int;
        law_hashes_are_those_of_files(head, path);
        if hashes_of(head).contains_key(path) {
            let i = choose|i: int|
                0 <= i < head.len() && (#[trigger] head[i]).chunk_kind == ChunkKind::File
                    && head[i].file_path == path && head[i].content_hash is Some;
            assert(docs[i] == head[i]);
        }
        if exists|i: int|
            0 <= i < docs.len() && (#[trigger] docs[i]).chunk_kind == ChunkKind::File
                && docs[i].file_path == path && docs[i].content_hash is Some {
            let i = choose|i: int|
                0 <= i < docs.len() && (#[trigger] docs[i]).chunk_kind == ChunkKind::File
                    && docs[i].file_path == path && docs[i].content_hash is Some;
            if i < n {
                assert(head[i] == docs[i]);
            }
        }
        assert(docs[n] == docs.last());
    }
}

/// Of several file documents of a path the hash of the last one holds.
pub proof fn law_the_last_hash_holds(docs: Seq<VectorDocumentView>, i: int)
    requires
        0 <= i < docs.len(),
        docs[i].chunk_kind == ChunkKind::File,
        docs[i].content_hash is Some,
        forall|j: int|
            i < j < docs.len() && (#[trigger] docs[j]).chunk_kind == ChunkKind::File
                && docs[j].file_path == docs[i].file_path ==> docs[j].content_hash is None,
    ensures
        hashes_of(docs)[docs[i].file_path] == docs[i].content_hash->0,
    decreases docs.len(),
{
    let head = docs.drop_last();
    let n = head.len() as int;
    if i < n {
        assert forall|j: int|
            i < j < head.len() && (#[trigger] head[j]).chunk_kind == ChunkKind::File
                && head[j].file_path == head[i].file_path implies head[j].content_hash is None by {
            assert(docs[j] == head[j]);
        }
        law_the_last_hash_holds(head, i);
        assert(docs[n] == docs.last());
    }
}

/// The count of a file's documents is that of the documents with its path.
pub proof fn law_documents_are_counted(docs: Seq<VectorDocumentView>, path: Seq<char>)
    ensures
        count_of(docs, path) == docs.filter(|d: VectorDocumentView| d.file_path == path).len(),
    decreases docs.len(),
{
    reveal(Seq::filter);
    if docs.len() > 0 {
        law_documents_are_counted(docs.drop_last(), path);
    }
}

/// Touching a file sets the time of the last use of its documents, changes nothing
/// else of them, and leaves all others as they are.
pub proof fn law_touching(docs: Seq<VectorDocumentView>, path: Seq<char>, ts: i64, i: int)
    requires
        0 <= i < docs.len(),
    ensures
        all_touched(docs, path, ts).len() == docs.len(),
        docs[i].file_path == path ==> all_touched(docs, path, ts)[i] == (VectorDocumentView {
            last_used_at: Some(ts),
            ..docs[i]
        }),
        docs[i].file_path != path ==> all_touched(docs, path, ts)[i] == docs[i],
{
}

/// Deleting by file takes exactly the documents of that file, by id exactly those
/// of the ids, and by pattern exactly those whose path it matches.
pub proof fn law_deletions_take_what_they_say(
    docs: Seq<VectorDocumentView>,
    path: Seq<char>,
    ids: Seq<Seq<char>>,
    pattern: Seq<char>,
    d: VectorDocumentView,
)
    ensures
        docs.filter(of_other_files(path)).contains(d) <==> docs.contains(d) && d.file_path != path,
        docs.filter(of_other_ids(ids)).contains(d) <==> docs.contains(d) && !ids.contains(d.id),
        docs.filter(unmatched(pattern)).contains(d) <==> docs.contains(d) && !any_glob_matches(
            seq![(pattern, false)],
            d.file_path,
        ),
{
    law_removal(docs, of_other_files(path), d);
    law_removal(docs, of_other_ids(ids), d);
    law_removal(docs, unmatched(pattern), d);
}

/// The documents before the first misfit fit the dimension, and the misfit does
/// not.
pub proof fn law_first_misfit(docs: Seq<VectorDocumentView>, dimension: int, i: int)
    requires
        0 <= i <= docs.len(),
    ensures
        ({
            let n = first_misfit(docs, dimension, i);
            &&& i <= n <= docs.len()
            &&& n < docs.len() ==> docs[n].vector.len() != dimension
            &&& forall|j: int| i <= j < n ==> (#[trigger] docs[j]).vector.len() == dimension
        }),
    decreases docs.len() - i,
{
    if i < docs.len() && docs[i].vector.len() == dimension {
        law_first_misfit(docs, dimension, i + 1);
    }
}

/// Writing a namespace's metadata replaces that and nothing else: its name, its
/// dimension and its documents stay, and so do all other namespaces.
pub proof fn law_metadata_is_kept_apart(
    store: MockVectorStoreView,
    k: int,
    metadata: NamespaceMetadataView,
    j: int,
)
    requires
        0 <= k < store.namespaces.len(),
        0 <= j < store.namespaces.len(),
    ensures
        ({
            let after = with_metadata(store, k, metadata);
            &&& after.namespaces.len() == store.namespaces.len()
            &&& after.namespaces[k].metadata == metadata
            &&& after.namespaces[k].documents == store.namespaces[k].documents
            &&& after.namespaces[k].name == store.namespaces[k].name
            &&& after.namespaces[k].dimension == store.namespaces[k].dimension
            &&& j != k ==> after.namespaces[j] == store.namespaces[j]
        }),
{
}

/// The words of a failure hold what it is about.
pub proof fn law_failures_name_what_they_are_about(e: StoreFailureView)
    ensures
        match e {
            StoreFailureView::AlreadyExists { name } => occurs(failure_words(e), name),
            StoreFailureView::NotFound { name } => occurs(failure_words(e), name),
            StoreFailureView::Dimension { expected, got } => occurs(
                failure_words(e),
                decimal(expected as nat) + ", got "@ + decimal(got as nat),
            ),
            StoreFailureView::InvalidGlob { cause } => occurs(failure_words(e), cause),
        },
{
    match e {
        StoreFailureView::AlreadyExists { name } => {
            lemma_part_between("namespace '"@, name, "' already exists"@);
        },
        StoreFailureView::NotFound { name } => {
            lemma_part_between("namespace '"@, name, "' not found"@);
        },
        StoreFailureView::Dimension { expected, got } => {
            lemma_three_at_end(
                "vector dimension mismatch: expected "@,
                decimal(expected as nat),
                ", got "@,
                decimal(got as nat),
            );
        },
        StoreFailureView::InvalidGlob { cause } => {
            lemma_part_at_end("invalid glob: "@, cause);
        },
    }
}

} // verus!
