//! Search: from the hits of several namespaces to a ranked report of files
//! and their symbols, with the decisions that govern them.
use vstd::prelude::*;

use crate::config::DecayConfig;
use crate::decision::{decision_uri, uri_of, DecisionEntryView, DecisionRegistry};
use crate::globs::{
    any_glob_matches, compile_globs, glob_error, globs_failure, globs_of, ignoring_case,
    law_the_first_bad_pattern_is_told, set_matches,
    GlobFailure, GlobFailureView,
};
use crate::rank::{ints, law_ranked, law_top, outranks, places, ranked, top, top_of};
use crate::store::{
    ChunkKind, Namespace, NamespaceView, Score, SearchOptions, SearchOptionsView, SearchResult,
    SearchResultView,
};
use crate::text::{
    decimal, has_suffix, has_text, lemma_part_at_end, lemma_part_between, lemma_part_stays,
    lemma_three_at_end, occurs, same, show_u64,
};

verus! {

/// How far a fetch may widen when a filter starves the result set.
pub const MAX_OVER_FETCH: usize = 2000;

/// How fast a fetch widens.
pub const OVER_FETCH_GROWTH: usize = 8;

/// What is searched for.
#[derive(Debug)]
pub struct SearchParams {
    pub query: String,
    pub top_k: usize,
    pub symbols_per_file: usize,
    pub no_symbols: bool,
    pub scope: Vec<String>,
    pub filters: Vec<String>,
}

/// What a [`SearchParams`] holds.
#[verifier::ext_equal]
pub struct SearchParamsView {
    pub query: Seq<char>,
    pub top_k: usize,
    pub symbols_per_file: usize,
    pub no_symbols: bool,
    pub scope: Seq<Seq<char>>,
    pub filters: Seq<Seq<char>>,
}

impl DeepView for SearchParams {
    type V = SearchParamsView;

    open spec fn deep_view(&self) -> SearchParamsView {
        SearchParamsView {
            query: self.query@,
            top_k: self.top_k,
            symbols_per_file: self.symbols_per_file,
            no_symbols: self.no_symbols,
            scope: self.scope.deep_view(),
            filters: self.filters.deep_view(),
        }
    }
}

impl Clone for SearchParams {
    fn clone(&self) -> (r: Self)
        ensures
            r.deep_view() == self.deep_view(),
    {
        SearchParams {
            query: self.query.clone(),
            top_k: self.top_k,
            symbols_per_file: self.symbols_per_file,
            no_symbols: self.no_symbols,
            scope: self.scope.clone(),
            filters: self.filters.clone(),
        }
    }
}

/// A governing decision as it appears in a report.
#[derive(Debug)]
pub struct GoverningDecision {
    pub path: String,
    pub title: String,
    pub status: String,
}

/// What a [`GoverningDecision`] holds.
#[verifier::ext_equal]
pub struct GoverningDecisionView {
    pub path: Seq<char>,
    pub title: Seq<char>,
    pub status: Seq<char>,
}

impl DeepView for GoverningDecision {
    type V = GoverningDecisionView;

    open spec fn deep_view(&self) -> GoverningDecisionView {
        GoverningDecisionView {
            path: self.path@,
            title: self.title@,
            status: self.status@,
        }
    }
}

impl Clone for GoverningDecision {
    fn clone(&self) -> (r: Self)
        ensures
            r.deep_view() == self.deep_view(),
    {
        GoverningDecision {
            path: self.path.clone(),
            title: self.title.clone(),
            status: self.status.clone(),
        }
    }
}

/// A symbol of a reported file.
#[derive(Debug)]
pub struct SymbolResult {
    pub name: String,
    pub kind: String,
    pub lines: [u32; 2],
    pub summary: Option<String>,
    pub score: Score,
    pub calls: Option<Vec<String>>,
    pub called_by: Option<Vec<String>>,
}

/// What a [`SymbolResult`] holds.
#[verifier::ext_equal]
pub struct SymbolResultView {
    pub name: Seq<char>,
    pub kind: Seq<char>,
    pub lines: Seq<u32>,
    pub summary: Option<Seq<char>>,
    pub score: Score,
    pub calls: Option<Seq<Seq<char>>>,
    pub called_by: Option<Seq<Seq<char>>>,
}

impl DeepView for SymbolResult {
    type V = SymbolResultView;

    open spec fn deep_view(&self) -> SymbolResultView {
        SymbolResultView {
            name: self.name@,
            kind: self.kind@,
            lines: self.lines@,
            summary: self.summary.deep_view(),
            score: self.score,
            calls: self.calls.deep_view(),
            called_by: self.called_by.deep_view(),
        }
    }
}

/// A reported file.
#[derive(Debug)]
pub struct FileResult {
    pub path: String,
    pub score: Score,
    pub summary: Option<String>,
    /// The tap the file comes from; none for the files tap.
    pub source: Option<String>,
    pub symbols: Vec<SymbolResult>,
    /// The decisions that govern this code file, where there are any.
    pub governed_by: Option<Vec<GoverningDecision>>,
}

/// What a [`FileResult`] holds.
#[verifier::ext_equal]
pub struct FileResultView {
    pub path: Seq<char>,
    pub score: Score,
    pub summary: Option<Seq<char>>,
    pub source: Option<Seq<char>>,
    pub symbols: Seq<SymbolResultView>,
    pub governed_by: Option<Seq<GoverningDecisionView>>,
}

impl DeepView for FileResult {
    type V = FileResultView;

    open spec fn deep_view(&self) -> FileResultView {
        FileResultView {
            path: self.path@,
            score: self.score,
            summary: self.summary.deep_view(),
            source: self.source.deep_view(),
            symbols: self.symbols.deep_view(),
            governed_by: self.governed_by.deep_view(),
        }
    }
}

/// The outcome of a search.
#[derive(Debug)]
pub struct SearchReport {
    pub query: String,
    pub namespace: String,
    pub indexed_at: Option<String>,
    pub results: Vec<FileResult>,
}

/// What a [`SearchReport`] holds.
#[verifier::ext_equal]
pub struct SearchReportView {
    pub query: Seq<char>,
    pub namespace: Seq<char>,
    pub indexed_at: Option<Seq<char>>,
    pub results: Seq<FileResultView>,
}

impl DeepView for SearchReport {
    type V = SearchReportView;

    open spec fn deep_view(&self) -> SearchReportView {
        SearchReportView {
            query: self.query@,
            namespace: self.namespace@,
            indexed_at: self.indexed_at.deep_view(),
            results: self.results.deep_view(),
        }
    }
}

/// A hit and the tap it comes from.
#[derive(Debug)]
pub struct SourcedHit {
    pub result: SearchResult,
    pub source: Option<String>,
}

/// What a [`SourcedHit`] holds.
#[verifier::ext_equal]
pub struct SourcedHitView {
    pub result: SearchResultView,
    pub source: Option<Seq<char>>,
}

impl DeepView for SourcedHit {
    type V = SourcedHitView;

    open spec fn deep_view(&self) -> SourcedHitView {
        SourcedHitView {
            result: self.result.deep_view(),
            source: self.source.deep_view(),
        }
    }
}

impl Clone for SourcedHit {
    fn clone(&self) -> (r: Self)
        ensures
            r.deep_view() == self.deep_view(),
    {
        SourcedHit {
            result: self.result.clone(),
            source: self.source.clone(),
        }
    }
}

/// A decision as search needs it.
pub struct DecisionMeta {
    pub uri: String,
    pub title: String,
    pub status: String,
    /// Whether this decision takes part in recall.
    pub active: bool,
    /// The globs of the code areas this decision governs.
    pub areas: globset::GlobSet,
    /// URIs of the decisions this one overrides.
    pub overrides: Vec<String>,
}

/// What a [`DecisionMeta`] holds.
#[verifier::ext_equal]
pub struct DecisionMetaView {
    pub uri: Seq<char>,
    pub title: Seq<char>,
    pub status: Seq<char>,
    pub active: bool,
    pub areas: Seq<(Seq<char>, bool)>,
    pub overrides: Seq<Seq<char>>,
}

impl DeepView for DecisionMeta {
    type V = DecisionMetaView;

    open spec fn deep_view(&self) -> DecisionMetaView {
        DecisionMetaView {
            uri: self.uri@,
            title: self.title@,
            status: self.status@,
            active: self.active,
            areas: globs_of(self.areas),
            overrides: self.overrides.deep_view(),
        }
    }
}

/// Why a search, or its preparation, fails.
#[derive(Debug)]
pub enum SearchError {
    /// A decision's area is no valid glob.
    InvalidArea { id: u32, area: String, cause: String },
    /// A decision's areas do not compile together.
    AreaGlobs { cause: String },
    /// A filter is no valid glob.
    InvalidFilter { pattern: String, cause: String },
    /// The filters do not compile together.
    FilterGlobs { cause: String },
    /// The index was built with another embedder.
    EmbedderMismatch { stored: String, current: String },
    /// None of the namespaces has been indexed.
    IndexNotFound { namespace: String },
    /// The store or the embedder failed.
    Outside { message: String },
}

/// What a [`SearchError`] holds.
#[verifier::ext_equal]
pub enum SearchErrorView {
    InvalidArea { id: u32, area: Seq<char>, cause: Seq<char> },
    AreaGlobs { cause: Seq<char> },
    InvalidFilter { pattern: Seq<char>, cause: Seq<char> },
    FilterGlobs { cause: Seq<char> },
    EmbedderMismatch { stored: Seq<char>, current: Seq<char> },
    IndexNotFound { namespace: Seq<char> },
    Outside { message: Seq<char> },
}

impl DeepView for SearchError {
    type V = SearchErrorView;

    open spec fn deep_view(&self) -> SearchErrorView {
        match self {
            SearchError::InvalidArea { id, area, cause } => SearchErrorView::InvalidArea {
                id: *id,
                area: area@,
                cause: cause@,
            },
            SearchError::AreaGlobs { cause } => SearchErrorView::AreaGlobs { cause: cause@ },
            SearchError::InvalidFilter { pattern, cause } => SearchErrorView::InvalidFilter {
                pattern: pattern@,
                cause: cause@,
            },
            SearchError::FilterGlobs { cause } => SearchErrorView::FilterGlobs { cause: cause@ },
            SearchError::EmbedderMismatch { stored, current } => SearchErrorView::EmbedderMismatch {
                stored: stored@,
                current: current@,
            },
            SearchError::IndexNotFound { namespace } => SearchErrorView::IndexNotFound {
                namespace: namespace@,
            },
            SearchError::Outside { message } => SearchErrorView::Outside { message: message@ },
        }
    }
}

/// An error in words.
pub open spec fn error_words(e: SearchErrorView) -> Seq<char> {
    match e {
        SearchErrorView::InvalidArea { id, area, cause } => "decision "@ + decimal(id as nat)
            + " has invalid area glob '"@ + area + "'"@,
        SearchErrorView::AreaGlobs { cause } => "compiling decision area globs"@,
        SearchErrorView::InvalidFilter { pattern, cause } => "invalid --filter glob: "@ + pattern,
        SearchErrorView::FilterGlobs { cause } => "failed to compile --filter globs"@,
        SearchErrorView::EmbedderMismatch { stored, current } =>
            "embedder mismatch: index was built with "@ + stored
            + ", but search is configured for "@ + current
            + "; run `wdpkr index --full` to reindex or change your embedder config"@,
        SearchErrorView::IndexNotFound { namespace } => "index not found for namespace '"@
            + namespace + "'; run `wdpkr index` first"@,
        SearchErrorView::Outside { message } => message,
    }
}

impl SearchError {
    /// The error as text.
    pub fn message(&self) -> (r: String)
        ensures
            r@ == error_words(self.deep_view()),
    {
        match self {
            SearchError::InvalidArea { id, area, cause } => {
                let mut r = "decision ".to_string();
                r.append(show_u64(*id as u64).as_str());
                r.append(" has invalid area glob '");
                r.append(area.as_str());
                r.append("'");
                r
            },
            SearchError::AreaGlobs { cause } => "compiling decision area globs".to_string(),
            SearchError::InvalidFilter { pattern, cause } => {
                let mut r = "invalid --filter glob: ".to_string();
                r.append(pattern.as_str());
                r
            },
            SearchError::FilterGlobs { cause } => "failed to compile --filter globs".to_string(),
            SearchError::EmbedderMismatch { stored, current } => {
                let mut r = "embedder mismatch: index was built with ".to_string();
                r.append(stored.as_str());
                r.append(", but search is configured for ");
                r.append(current.as_str());
                r.append("; run `wdpkr index --full` to reindex or change your embedder config");
                r
            },
            SearchError::IndexNotFound { namespace } => {
                let mut r = "index not found for namespace '".to_string();
                r.append(namespace.as_str());
                r.append("'; run `wdpkr index` first");
                r
            },
            SearchError::Outside { message } => message.clone(),
        }
    }
}

// ---------------------------------------------------------------------------
// Compiling decisions and filters
// ---------------------------------------------------------------------------

/// Why a decision's areas do not compile, if they do not.
pub open spec fn area_failure(d: DecisionEntryView) -> Option<SearchErrorView> {
    match globs_failure(d.areas) {
        Some(GlobFailureView::Pattern { index, cause }) => Some(
            SearchErrorView::InvalidArea { id: d.id, area: d.areas[index], cause },
        ),
        Some(GlobFailureView::Together { cause }) => Some(SearchErrorView::AreaGlobs { cause }),
        None => None,
    }
}

/// The first failure among the decisions' areas.
pub open spec fn areas_failure(ds: Seq<DecisionEntryView>) -> Option<SearchErrorView>
    decreases ds.len(),
{
    if ds.len() == 0 {
        None
    } else {
        match areas_failure(ds.drop_last()) {
            Some(e) => Some(e),
            None => area_failure(ds.last()),
        }
    }
}

/// A decision as search needs it.
pub open spec fn meta_of(d: DecisionEntryView) -> DecisionMetaView {
    DecisionMetaView {
        uri: uri_of(d.id),
        title: d.title,
        status: d.status.name(),
        active: d.status.recalled(),
        areas: ignoring_case(d.areas),
        overrides: d.overrides.map_values(|id: u32| uri_of(id)),
    }
}

fn uris(ids: &Vec<u32>) -> (r: Vec<String>)
    ensures
        r.deep_view() == ids@.map_values(|id: u32| uri_of(id)),
{
    let ghost want = ids@.map_values(|id: u32| uri_of(id));
    let mut out: Vec<String> = Vec::new();
    let mut i: usize = 0;
    while i < ids.len()
        invariant
            i <= ids@.len(),
            want == ids@.map_values(|id: u32| uri_of(id)),
            out.deep_view() == want.take(i as int),
        decreases ids@.len() - i,
    {
        let ghost before = out.deep_view();
        let u = decision_uri(ids[i]);
        out.push(u);
        assert(out.deep_view() =~= before.push(u@));
        assert(want.take(i + 1) =~= want.take(i as int).push(want[i as int]));
        i += 1;
    }
    assert(want.take(i as int) =~= want);
    out
}

proof fn lemma_areas_failure_take(ds: Seq<DecisionEntryView>, k: int)
    requires
        0 <= k <= ds.len(),
        areas_failure(ds.take(k)) is Some,
    ensures
        areas_failure(ds) == areas_failure(ds.take(k)),
    decreases ds.len() - k,
{
    if k == ds.len() {
        assert(ds.take(k) =~= ds);
    } else {
        assert(ds.take(k + 1).drop_last() =~= ds.take(k));
        lemma_areas_failure_take(ds, k + 1);
    }
}

/// Compiles the decisions of a registry for search.
pub fn compile_decisions(reg: &DecisionRegistry) -> (r: Result<Vec<DecisionMeta>, SearchError>)
    ensures
        match r {
            Ok(metas) => areas_failure(reg.deep_view().decisions) is None && metas.deep_view()
                == reg.deep_view().decisions.map_values(|d: DecisionEntryView| meta_of(d)),
            Err(e) => areas_failure(reg.deep_view().decisions) == Some(e.deep_view()),
        },
{
    let ghost ds = reg.decisions.deep_view();
    let ghost want = ds.map_values(|d: DecisionEntryView| meta_of(d));
    let mut out: Vec<DecisionMeta> = Vec::new();
    let mut i: usize = 0;
    while i < reg.decisions.len()
        invariant
            i <= reg.decisions@.len(),
            ds == reg.decisions.deep_view(),
            want == ds.map_values(|d: DecisionEntryView| meta_of(d)),
            areas_failure(ds.take(i as int)) is None,
            out.deep_view() == want.take(i as int),
        decreases reg.decisions@.len() - i,
    {
        let d = &reg.decisions[i];
        proof {
            assert(ds[i as int] == d.deep_view());
            assert(ds.take(i + 1).drop_last() =~= ds.take(i as int));
            assert(ds.take(i + 1).last() == d.deep_view());
        }
        let areas = match compile_globs(&d.areas) {
            Ok(set) => set,
            Err(GlobFailure::Pattern { index, cause }) => {
                let e = SearchError::InvalidArea { id: d.id, area: d.areas[index].clone(), cause };
                proof {
                    lemma_areas_failure_take(ds, i + 1);
                }
                return Err(e);
            },
            Err(GlobFailure::Together { cause }) => {
                proof {
                    lemma_areas_failure_take(ds, i + 1);
                }
                return Err(SearchError::AreaGlobs { cause });
            },
        };
        let ghost before = out.deep_view();
        assert(d.overrides.deep_view() =~= d.overrides@);
        let m = DecisionMeta {
            uri: d.uri(),
            title: d.title.clone(),
            status: d.status.as_str().to_string(),
            active: d.status.is_active(),
            areas,
            overrides: uris(&d.overrides),
        };
        assert(m.deep_view() == meta_of(d.deep_view()));
        out.push(m);
        assert(out.deep_view() =~= before.push(meta_of(d.deep_view())));
        assert(want.take(i + 1) =~= want.take(i as int).push(want[i as int]));
        i += 1;
    }
    assert(ds.take(i as int) =~= ds);
    assert(want.take(i as int) =~= want);
    Ok(out)
}

/// Why the filters do not compile, if they do not.
pub open spec fn filter_failure(filters: Seq<Seq<char>>) -> Option<SearchErrorView> {
    if filters.len() == 0 {
        None
    } else {
        match globs_failure(filters) {
            Some(GlobFailureView::Pattern { index, cause }) => Some(
                SearchErrorView::InvalidFilter { pattern: filters[index], cause },
            ),
            Some(GlobFailureView::Together { cause }) => Some(
                SearchErrorView::FilterGlobs { cause },
            ),
            None => None,
        }
    }
}

/// Compiles the filters of a search; without filters there is nothing to match.
pub fn compile_filters(filters: &Vec<String>) -> (r: Result<Option<globset::GlobSet>, SearchError>)
    ensures
        match r {
            Ok(Some(set)) => filters@.len() > 0 && filter_failure(filters.deep_view()) is None
                && globs_of(set) == ignoring_case(filters.deep_view()),
            Ok(None) => filters@.len() == 0,
            Err(e) => filter_failure(filters.deep_view()) == Some(e.deep_view()),
        },
{
    if filters.len() == 0 {
        return Ok(None);
    }
    match compile_globs(filters) {
        Ok(set) => Ok(Some(set)),
        Err(GlobFailure::Pattern { index, cause }) => Err(
            SearchError::InvalidFilter { pattern: filters[index].clone(), cause },
        ),
        Err(GlobFailure::Together { cause }) => Err(SearchError::FilterGlobs { cause }),
    }
}

// ---------------------------------------------------------------------------
// Governing decisions
// ---------------------------------------------------------------------------

/// Whether decision `d` is recalled and one of its areas covers the path.
pub open spec fn governs(ds: Seq<DecisionMetaView>, covers: Seq<bool>, d: int) -> bool {
    ds[d].active && covers[d]
}

/// Whether a governing decision other than the one at `uri` overrides it.
pub open spec fn overridden(ds: Seq<DecisionMetaView>, covers: Seq<bool>, uri: Seq<char>) -> bool {
    exists|d: int|
        0 <= d < ds.len() && #[trigger] governs(ds, covers, d) && ds[d].uri != uri
            && ds[d].overrides.contains(uri)
}

/// A decision as it appears in a report.
pub open spec fn governing_view(m: DecisionMetaView) -> GoverningDecisionView {
    GoverningDecisionView { path: m.uri, title: m.title, status: m.status }
}

/// The decisions among the first `n` that govern a path and are not overridden
/// by another that governs it; `covers[d]` says whether an area of decision
/// `d` matches the path.
pub open spec fn governing_upto(
    ds: Seq<DecisionMetaView>,
    covers: Seq<bool>,
    n: int,
) -> Seq<GoverningDecisionView>
    decreases n,
{
    if n <= 0 {
        Seq::<GoverningDecisionView>::empty()
    } else {
        let head = governing_upto(ds, covers, n - 1);
        if governs(ds, covers, n - 1) && !overridden(ds, covers, ds[n - 1].uri) {
            head.push(governing_view(ds[n - 1]))
        } else {
            head
        }
    }
}

/// The decisions that govern a path, overridden ones left out.
pub open spec fn governing(ds: Seq<DecisionMetaView>, covers: Seq<bool>) -> Seq<
    GoverningDecisionView,
> {
    governing_upto(ds, covers, ds.len() as int)
}

/// Which decisions' areas match a path.
pub open spec fn covering(ds: Seq<DecisionMetaView>, path: Seq<char>) -> Seq<bool> {
    ds.map_values(|m: DecisionMetaView| any_glob_matches(m.areas, path))
}

fn is_overridden(decisions: &Vec<DecisionMeta>, covers: &Vec<bool>, uri: &str) -> (r: bool)
    requires
        covers@.len() == decisions@.len(),
    ensures
        r == overridden(decisions.deep_view(), covers@, uri@),
{
    let ghost ds = decisions.deep_view();
    let mut d: usize = 0;
    while d < decisions.len()
        invariant
            d <= decisions@.len(),
            covers@.len() == decisions@.len(),
            ds == decisions.deep_view(),
            forall|j: int|
                0 <= j < d ==> !(#[trigger] governs(ds, covers@, j) && ds[j].uri != uri@
                    && ds[j].overrides.contains(uri@)),
        decreases decisions@.len() - d,
    {
        assert(ds[d as int] == decisions@[d as int].deep_view());
        let m = &decisions[d];
        if m.active && covers[d] && !same(m.uri.as_str(), uri) && has_text(&m.overrides, uri) {
            assert(governs(ds, covers@, d as int));
            return true;
        }
        d += 1;
    }
    false
}

/// The governing decisions, given which decisions' areas match the path.
pub fn governing_among(decisions: &Vec<DecisionMeta>, covers: &Vec<bool>) -> (r: Vec<
    GoverningDecision,
>)
    requires
        covers@.len() == decisions@.len(),
    ensures
        r.deep_view() == governing(decisions.deep_view(), covers@),
{
    let ghost ds = decisions.deep_view();
    let mut out: Vec<GoverningDecision> = Vec::new();
    let mut d: usize = 0;
    assert(out.deep_view() =~= governing_upto(ds, covers@, 0));
    while d < decisions.len()
        invariant
            d <= decisions@.len(),
            covers@.len() == decisions@.len(),
            ds == decisions.deep_view(),
            out.deep_view() == governing_upto(ds, covers@, d as int),
        decreases decisions@.len() - d,
    {
        let m = &decisions[d];
        assert(ds[d as int] == m.deep_view());
        if m.active && covers[d] && !is_overridden(decisions, covers, m.uri.as_str()) {
            let ghost before = out.deep_view();
            let g = GoverningDecision {
                path: m.uri.clone(),
                title: m.title.clone(),
                status: m.status.clone(),
            };
            assert(g.deep_view() == governing_view(m.deep_view()));
            out.push(g);
            assert(out.deep_view() =~= before.push(governing_view(m.deep_view())));
        }
        d += 1;
    }
    out
}

fn covers_of(decisions: &Vec<DecisionMeta>, path: &str) -> (r: Vec<bool>)
    ensures
        r@ == covering(decisions.deep_view(), path@),
{
    let mut out: Vec<bool> = Vec::new();
    let mut d: usize = 0;
    while d < decisions.len()
        invariant
            d <= decisions@.len(),
            out@.len() == d,
            forall|j: int|
                0 <= j < d ==> #[trigger] out@[j] == any_glob_matches(
                    decisions.deep_view()[j].areas,
                    path@,
                ),
        decreases decisions@.len() - d,
    {
        out.push(set_matches(&decisions[d].areas, path));
        d += 1;
    }
    out
}

/// Active decisions whose areas match `path`; one that is overridden by another
/// of them is dropped.
pub fn governing_for(path: &str, decisions: &Vec<DecisionMeta>) -> (r: Vec<GoverningDecision>)
    ensures
        r.deep_view() == governing(decisions.deep_view(), covering(decisions.deep_view(), path@)),
{
    let covers = covers_of(decisions, path);
    governing_among(decisions, &covers)
}

// ---------------------------------------------------------------------------
// Grouping hits
// ---------------------------------------------------------------------------

/// Whether a path belongs to a decision out of recall.
pub open spec fn out_of_recall(ds: Seq<DecisionMetaView>, path: Seq<char>) -> bool {
    exists|d: int| 0 <= d < ds.len() && !(#[trigger] ds[d]).active && ds[d].uri == path
}

/// Whether hit `i` is a file that the filter admits and that is in recall.
pub open spec fn is_candidate(
    hits: Seq<SourcedHitView>,
    admitted: Seq<bool>,
    ds: Seq<DecisionMetaView>,
    i: int,
) -> bool {
    hits[i].result.chunk_kind == ChunkKind::File && admitted[i] && !out_of_recall(
        ds,
        hits[i].result.file_path,
    )
}

/// The positions of the candidates among the first `n` hits.
pub open spec fn candidates(
    hits: Seq<SourcedHitView>,
    admitted: Seq<bool>,
    ds: Seq<DecisionMetaView>,
    n: int,
) -> Seq<int>
    decreases n,
{
    if n <= 0 {
        Seq::<int>::empty()
    } else if is_candidate(hits, admitted, ds, n - 1) {
        candidates(hits, admitted, ds, n - 1).push(n - 1)
    } else {
        candidates(hits, admitted, ds, n - 1)
    }
}

/// The keys by which the hits at these positions are ranked.
pub open spec fn score_keys(hits: Seq<SourcedHitView>, at: Seq<int>) -> Seq<int> {
    at.map_values(|i: int| hits[i].result.score.key())
}

/// The positions of the reported files, best first: the `top_k` candidates of
/// highest score, those of equal score in the order of the hits.
pub open spec fn reported(
    hits: Seq<SourcedHitView>,
    admitted: Seq<bool>,
    ds: Seq<DecisionMetaView>,
    top_k: int,
) -> Seq<int> {
    let c = candidates(hits, admitted, ds, hits.len() as int);
    top_of(c, score_keys(hits, c), top_k)
}

/// The positions of a file's symbols among the first `n` hits.
pub open spec fn symbols_in(hits: Seq<SourcedHitView>, path: Seq<char>, n: int) -> Seq<int>
    decreases n,
{
    if n <= 0 {
        Seq::<int>::empty()
    } else if hits[n - 1].result.chunk_kind == ChunkKind::Symbol && hits[n - 1].result.file_path
        == path {
        symbols_in(hits, path, n - 1).push(n - 1)
    } else {
        symbols_in(hits, path, n - 1)
    }
}

/// A text, or the empty one.
pub open spec fn or_nothing(t: Option<Seq<char>>) -> Seq<char> {
    match t {
        Some(s) => s,
        None => Seq::<char>::empty(),
    }
}

/// A line number, or zero.
pub open spec fn or_zero(n: Option<u32>) -> u32 {
    match n {
        Some(k) => k,
        None => 0,
    }
}

/// A symbol hit as reported.
pub open spec fn symbol_view(r: SearchResultView) -> SymbolResultView {
    SymbolResultView {
        name: or_nothing(r.symbol_name),
        kind: or_nothing(r.symbol_kind),
        lines: seq![or_zero(r.start_line), or_zero(r.end_line)],
        summary: Some(r.summary),
        score: r.score,
        calls: r.calls,
        called_by: r.called_by,
    }
}

/// A file's reported symbols: the best `limit` of its symbol hits.
pub open spec fn symbols_of(hits: Seq<SourcedHitView>, path: Seq<char>, limit: int) -> Seq<
    SymbolResultView,
> {
    let s = symbols_in(hits, path, hits.len() as int);
    top_of(s, score_keys(hits, s), limit).map_values(|i: int| symbol_view(hits[i].result))
}

/// The file at hit `i` as reported; `covers[d]` says whether an area of
/// decision `d` matches its path.
pub open spec fn file_view(
    hits: Seq<SourcedHitView>,
    params: SearchParamsView,
    ds: Seq<DecisionMetaView>,
    covers: Seq<bool>,
    i: int,
) -> FileResultView {
    FileResultView {
        path: hits[i].result.file_path,
        score: hits[i].result.score,
        summary: Some(hits[i].result.summary),
        source: hits[i].source,
        symbols: if params.no_symbols {
            Seq::<SymbolResultView>::empty()
        } else {
            symbols_of(hits, hits[i].result.file_path, params.symbols_per_file as int)
        },
        governed_by: if hits[i].source is None && governing(ds, covers).len() > 0 {
            Some(governing(ds, covers))
        } else {
            None
        },
    }
}

/// Which hits a filter admits: all where there is none.
pub open spec fn admits(
    filter: Option<Seq<(Seq<char>, bool)>>,
    hits: Seq<SourcedHitView>,
) -> Seq<bool> {
    hits.map_values(
        |h: SourcedHitView|
            match filter {
                Some(globs) => any_glob_matches(globs, h.result.file_path),
                None => true,
            },
    )
}

/// The patterns of an optional compiled filter.
pub open spec fn filter_globs(filter: Option<globset::GlobSet>) -> Option<
    Seq<(Seq<char>, bool)>,
> {
    match filter {
        Some(set) => Some(globs_of(set)),
        None => None,
    }
}

/// The reported files of a list of hits.
pub open spec fn grouped(
    hits: Seq<SourcedHitView>,
    params: SearchParamsView,
    filter: Option<Seq<(Seq<char>, bool)>>,
    ds: Seq<DecisionMetaView>,
) -> Seq<FileResultView> {
    reported(hits, admits(filter, hits), ds, params.top_k as int).map_values(
        |i: int| file_view(hits, params, ds, covering(ds, hits[i].result.file_path), i),
    )
}

fn is_out_of_recall(decisions: &Vec<DecisionMeta>, path: &str) -> (r: bool)
    ensures
        r == out_of_recall(decisions.deep_view(), path@),
{
    let ghost ds = decisions.deep_view();
    let mut d: usize = 0;
    while d < decisions.len()
        invariant
            d <= decisions@.len(),
            ds == decisions.deep_view(),
            forall|j: int| 0 <= j < d ==> (#[trigger] ds[j]).active || ds[j].uri != path@,
        decreases decisions@.len() - d,
    {
        assert(ds[d as int] == decisions@[d as int].deep_view());
        if !decisions[d].active && same(decisions[d].uri.as_str(), path) {
            return true;
        }
        d += 1;
    }
    false
}

fn best(hits: &Vec<SourcedHit>, at: &Vec<usize>, limit: usize) -> (r: Vec<usize>)
    requires
        forall|k: int| 0 <= k < at@.len() ==> #[trigger] at@[k] < hits@.len(),
    ensures
        places(r@) == top_of(
            places(at@),
            score_keys(hits.deep_view(), places(at@)),
            limit as int,
        ),
        forall|k: int| 0 <= k < r@.len() ==> #[trigger] r@[k] < hits@.len(),
{
    let ghost hv = hits.deep_view();
    let mut keys: Vec<i64> = Vec::new();
    let mut k: usize = 0;
    while k < at.len()
        invariant
            k <= at@.len(),
            hv == hits.deep_view(),
            keys@.len() == k,
            forall|j: int| 0 <= j < at@.len() ==> #[trigger] at@[j] < hits@.len(),
            forall|j: int|
                0 <= j < k ==> #[trigger] keys@[j] == hv[at@[j] as int].result.score.key(),
        decreases at@.len() - k,
    {
        keys.push(hits[at[k]].result.score.order_key());
        k += 1;
    }
    proof {
        assert(ints(keys@) =~= score_keys(hv, places(at@))) by {
            assert forall|j: int| 0 <= j < keys@.len() implies ints(keys@)[j] == score_keys(
                hv,
                places(at@),
            )[j] by {
                assert(keys@[j] == hv[at@[j] as int].result.score.key());
            }
        }
    }
    let r = top(at, &keys, limit);
    proof {
        assert forall|k: int| 0 <= k < r@.len() implies #[trigger] r@[k] < hits@.len() by {
            let j = choose|j: int| 0 <= j < at@.len() && at@[j] == r@[k];
            assert(at@[j] < hits@.len());
        }
    }
    r
}

/// The positions of the files to report, best first, given which hits the
/// filter admits.
pub fn rank_files(
    hits: &Vec<SourcedHit>,
    admitted: &Vec<bool>,
    decisions: &Vec<DecisionMeta>,
    top_k: usize,
) -> (r: Vec<usize>)
    requires
        admitted@.len() == hits@.len(),
    ensures
        places(r@) == reported(hits.deep_view(), admitted@, decisions.deep_view(), top_k as int),
        forall|k: int| 0 <= k < r@.len() ==> #[trigger] r@[k] < hits@.len(),
{
    let ghost hv = hits.deep_view();
    let ghost ds = decisions.deep_view();
    let mut at: Vec<usize> = Vec::new();
    let mut i: usize = 0;
    assert(places(at@) =~= candidates(hv, admitted@, ds, 0));
    while i < hits.len()
        invariant
            i <= hits@.len(),
            admitted@.len() == hits@.len(),
            hv == hits.deep_view(),
            ds == decisions.deep_view(),
            places(at@) == candidates(hv, admitted@, ds, i as int),
            forall|k: int| 0 <= k < at@.len() ==> #[trigger] at@[k] < hits@.len(),
        decreases hits@.len() - i,
    {
        let h = &hits[i];
        assert(hv[i as int] == h.deep_view());
        if h.result.chunk_kind == ChunkKind::File && admitted[i] && !is_out_of_recall(
            decisions,
            h.result.file_path.as_str(),
        ) {
            let ghost before = places(at@);
            at.push(i);
            assert(places(at@) =~= before.push(i as int));
        }
        i += 1;
    }
    best(hits, &at, top_k)
}

fn symbol_result(r: &SearchResult) -> (s: SymbolResult)
    ensures
        s.deep_view() == symbol_view(r.deep_view()),
{
    let lines: [u32; 2] = [
        match r.start_line {
            Some(n) => n,
            None => 0,
        },
        match r.end_line {
            Some(n) => n,
            None => 0,
        },
    ];
    assert(lines@ =~= seq![or_zero(r.start_line), or_zero(r.end_line)]);
    SymbolResult {
        name: match &r.symbol_name {
            Some(n) => n.clone(),
            None => String::new(),
        },
        kind: match &r.symbol_kind {
            Some(n) => n.clone(),
            None => String::new(),
        },
        lines,
        summary: Some(r.summary.clone()),
        score: r.score,
        calls: r.calls.clone(),
        called_by: r.called_by.clone(),
    }
}

/// The best symbols of a file.
pub fn file_symbols(hits: &Vec<SourcedHit>, path: &str, limit: usize) -> (r: Vec<SymbolResult>)
    ensures
        r.deep_view() == symbols_of(hits.deep_view(), path@, limit as int),
{
    let ghost hv = hits.deep_view();
    let mut at: Vec<usize> = Vec::new();
    let mut i: usize = 0;
    assert(places(at@) =~= symbols_in(hv, path@, 0));
    while i < hits.len()
        invariant
            i <= hits@.len(),
            hv == hits.deep_view(),
            places(at@) == symbols_in(hv, path@, i as int),
            forall|k: int| 0 <= k < at@.len() ==> #[trigger] at@[k] < hits@.len(),
        decreases hits@.len() - i,
    {
        let h = &hits[i];
        assert(hv[i as int] == h.deep_view());
        if h.result.chunk_kind == ChunkKind::Symbol && same(h.result.file_path.as_str(), path) {
            let ghost before = places(at@);
            at.push(i);
            assert(places(at@) =~= before.push(i as int));
        }
        i += 1;
    }
    let chosen = best(hits, &at, limit);
    let ghost want = symbols_of(hv, path@, limit as int);
    let mut out: Vec<SymbolResult> = Vec::new();
    let mut k: usize = 0;
    assert(out.deep_view() =~= want.take(0));
    while k < chosen.len()
        invariant
            k <= chosen@.len(),
            hv == hits.deep_view(),
            want == places(chosen@).map_values(|i: int| symbol_view(hv[i].result)),
            forall|j: int| 0 <= j < chosen@.len() ==> #[trigger] chosen@[j] < hits@.len(),
            out.deep_view() == want.take(k as int),
        decreases chosen@.len() - k,
    {
        let ghost before = out.deep_view();
        let s = symbol_result(&hits[chosen[k]].result);
        out.push(s);
        proof {
            assert(places(chosen@)[k as int] == chosen@[k as int]);
            assert(want[k as int] == s.deep_view());
            assert(out.deep_view() =~= before.push(s.deep_view()));
            assert(want.take(k + 1) =~= want.take(k as int).push(want[k as int]));
        }
        k += 1;
    }
    assert(want.take(k as int) =~= want);
    out
}

/// The file at hit `i` as reported, given which decisions' areas match it.
pub fn file_result(
    hits: &Vec<SourcedHit>,
    params: &SearchParams,
    decisions: &Vec<DecisionMeta>,
    covers: &Vec<bool>,
    i: usize,
) -> (r: FileResult)
    requires
        i < hits@.len(),
        covers@.len() == decisions@.len(),
    ensures
        r.deep_view() == file_view(
            hits.deep_view(),
            params.deep_view(),
            decisions.deep_view(),
            covers@,
            i as int,
        ),
{
    let h = &hits[i];
    assert(hits.deep_view()[i as int] == h.deep_view());
    let symbols: Vec<SymbolResult> = if params.no_symbols {
        Vec::new()
    } else {
        file_symbols(hits, h.result.file_path.as_str(), params.symbols_per_file)
    };
    assert(params.no_symbols ==> symbols.deep_view() =~= Seq::<SymbolResultView>::empty());
    let governed_by = if h.source.is_none() {
        let g = governing_among(decisions, covers);
        assert(g.deep_view().len() == g@.len());
        if g.len() > 0 {
            Some(g)
        } else {
            None
        }
    } else {
        None
    };
    FileResult {
        path: h.result.file_path.clone(),
        score: h.result.score,
        summary: Some(h.result.summary.clone()),
        source: h.source.clone(),
        symbols,
        governed_by,
    }
}

/// Groups hits into files with their symbols: filtered, ranked across all
/// namespaces and cut to `top_k`.
pub fn group_results_multi(
    hits: &Vec<SourcedHit>,
    params: &SearchParams,
    filter: &Option<globset::GlobSet>,
    decisions: &Vec<DecisionMeta>,
) -> (r: Vec<FileResult>)
    ensures
        r.deep_view() == grouped(
            hits.deep_view(),
            params.deep_view(),
            filter_globs(*filter),
            decisions.deep_view(),
        ),
{
    let ghost hv = hits.deep_view();
    let ghost ds = decisions.deep_view();
    let ghost pv = params.deep_view();
    let mut admitted: Vec<bool> = Vec::new();
    let mut i: usize = 0;
    while i < hits.len()
        invariant
            i <= hits@.len(),
            hv == hits.deep_view(),
            admitted@.len() == i,
            forall|j: int|
                0 <= j < i ==> #[trigger] admitted@[j] == admits(filter_globs(*filter), hv)[j],
        decreases hits@.len() - i,
    {
        let h = &hits[i];
        assert(hv[i as int] == h.deep_view());
        let ok = match filter {
            Some(set) => set_matches(set, h.result.file_path.as_str()),
            None => true,
        };
        admitted.push(ok);
        i += 1;
    }
    assert(admitted@ =~= admits(filter_globs(*filter), hv));
    let chosen = rank_files(hits, &admitted, decisions, params.top_k);
    let ghost want = grouped(hv, pv, filter_globs(*filter), ds);
    let mut out: Vec<FileResult> = Vec::new();
    let mut k: usize = 0;
    assert(out.deep_view() =~= want.take(0));
    while k < chosen.len()
        invariant
            k <= chosen@.len(),
            hv == hits.deep_view(),
            ds == decisions.deep_view(),
            pv == params.deep_view(),
            want == places(chosen@).map_values(
                |i: int| file_view(hv, pv, ds, covering(ds, hv[i].result.file_path), i),
            ),
            forall|j: int| 0 <= j < chosen@.len() ==> #[trigger] chosen@[j] < hits@.len(),
            out.deep_view() == want.take(k as int),
        decreases chosen@.len() - k,
    {
        let ghost before = out.deep_view();
        let p: usize = chosen[k];
        assert(hv[p as int] == hits@[p as int].deep_view());
        let covers = covers_of(decisions, hits[p].result.file_path.as_str());
        let f = file_result(hits, params, decisions, &covers, p);
        out.push(f);
        proof {
            assert(places(chosen@)[k as int] == p);
            assert(want[k as int] == f.deep_view());
            assert(out.deep_view() =~= before.push(f.deep_view()));
            assert(want.take(k + 1) =~= want.take(k as int).push(want[k as int]));
        }
        k += 1;
    }
    assert(want.take(k as int) =~= want);
    out
}

// ---------------------------------------------------------------------------
// Running a search
// ---------------------------------------------------------------------------

/// A namespace to search, the label of its tap, and how its results age.
#[derive(Debug)]
pub struct SearchTarget {
    pub namespace: Namespace,
    pub source: Option<String>,
    pub decay: DecayConfig,
}

/// What a [`SearchTarget`] holds.
#[verifier::ext_equal]
pub struct SearchTargetView {
    pub namespace: NamespaceView,
    pub source: Option<Seq<char>>,
    pub decay: DecayConfig,
}

impl DeepView for SearchTarget {
    type V = SearchTargetView;

    open spec fn deep_view(&self) -> SearchTargetView {
        SearchTargetView {
            namespace: self.namespace.deep_view(),
            source: self.source.deep_view(),
            decay: self.decay,
        }
    }
}

impl Clone for SearchTarget {
    fn clone(&self) -> (r: Self)
        ensures
            r.deep_view() == self.deep_view(),
    {
        SearchTarget {
            namespace: self.namespace.clone(),
            source: self.source.clone(),
            decay: self.decay,
        }
    }
}

/// What one namespace contributed: its hits, their scores already decayed,
/// and how far it is indexed.
#[derive(Debug)]
pub struct NamespaceHits {
    pub indexed_at: Option<String>,
    pub results: Vec<SearchResult>,
}

/// What a [`NamespaceHits`] holds.
#[verifier::ext_equal]
pub struct NamespaceHitsView {
    pub indexed_at: Option<Seq<char>>,
    pub results: Seq<SearchResultView>,
}

impl DeepView for NamespaceHits {
    type V = NamespaceHitsView;

    open spec fn deep_view(&self) -> NamespaceHitsView {
        NamespaceHitsView {
            indexed_at: self.indexed_at.deep_view(),
            results: self.results.deep_view(),
        }
    }
}

impl Clone for NamespaceHits {
    fn clone(&self) -> (r: Self)
        ensures
            r.deep_view() == self.deep_view(),
    {
        NamespaceHits {
            indexed_at: self.indexed_at.clone(),
            results: self.results.clone(),
        }
    }
}

/// What one fetch across all namespaces brought, before filtering.
#[derive(Debug)]
pub struct Round {
    /// The hits with their taps, in the order of the namespaces.
    pub results: Vec<SourcedHit>,
    pub primary_namespace: String,
    pub primary_indexed_at: Option<String>,
    pub any_namespace_found: bool,
    /// Every namespace returned fewer hits than requested, so that asking for
    /// more cannot bring anything new.
    pub exhausted: bool,
}

/// What a [`Round`] holds.
#[verifier::ext_equal]
pub struct RoundView {
    pub results: Seq<SourcedHitView>,
    pub primary_namespace: Seq<char>,
    pub primary_indexed_at: Option<Seq<char>>,
    pub any_namespace_found: bool,
    pub exhausted: bool,
}

impl DeepView for Round {
    type V = RoundView;

    open spec fn deep_view(&self) -> RoundView {
        RoundView {
            results: self.results.deep_view(),
            primary_namespace: self.primary_namespace@,
            primary_indexed_at: self.primary_indexed_at.deep_view(),
            any_namespace_found: self.any_namespace_found,
            exhausted: self.exhausted,
        }
    }
}

/// What became of one namespace's query.
#[derive(Debug)]
pub enum Outcome {
    /// The namespace was never indexed.
    Missing,
    Found(NamespaceHits),
    Failed(SearchError),
}

/// What an [`Outcome`] holds.
#[verifier::ext_equal]
pub enum OutcomeView {
    Missing,
    Found(NamespaceHitsView),
    Failed(SearchErrorView),
}

impl DeepView for Outcome {
    type V = OutcomeView;

    open spec fn deep_view(&self) -> OutcomeView {
        match self {
            Outcome::Missing => OutcomeView::Missing,
            Outcome::Found(h) => OutcomeView::Found(h.deep_view()),
            Outcome::Failed(e) => OutcomeView::Failed(e.deep_view()),
        }
    }
}

impl Clone for SearchError {
    fn clone(&self) -> (r: Self)
        ensures
            r.deep_view() == self.deep_view(),
    {
        match self {
            SearchError::InvalidArea { id, area, cause } => SearchError::InvalidArea {
                id: *id,
                area: area.clone(),
                cause: cause.clone(),
            },
            SearchError::AreaGlobs { cause } => SearchError::AreaGlobs { cause: cause.clone() },
            SearchError::InvalidFilter { pattern, cause } => SearchError::InvalidFilter {
                pattern: pattern.clone(),
                cause: cause.clone(),
            },
            SearchError::FilterGlobs { cause } => SearchError::FilterGlobs { cause: cause.clone() },
            SearchError::EmbedderMismatch { stored, current } => SearchError::EmbedderMismatch {
                stored: stored.clone(),
                current: current.clone(),
            },
            SearchError::IndexNotFound { namespace } => SearchError::IndexNotFound {
                namespace: namespace.clone(),
            },
            SearchError::Outside { message } => SearchError::Outside { message: message.clone() },
        }
    }
}

/// The next action of a running search.
pub enum SearchStep {
    /// The search is done.
    Report(SearchReport),
    /// Fetch again, asking every namespace for this many hits.
    Widen(usize),
    /// The search fails.
    Fail(SearchError),
}

/// What a [`SearchStep`] holds.
#[verifier::ext_equal]
pub enum SearchStepView {
    Report(SearchReportView),
    Widen(int),
    Fail(SearchErrorView),
}

impl DeepView for SearchStep {
    type V = SearchStepView;

    open spec fn deep_view(&self) -> SearchStepView {
        match self {
            SearchStep::Report(r) => SearchStepView::Report(r.deep_view()),
            SearchStep::Widen(n) => SearchStepView::Widen(*n as int),
            SearchStep::Fail(e) => SearchStepView::Fail(e.deep_view()),
        }
    }
}

/// A search over a list of namespaces.
pub struct SearchRun {
    /// The namespaces to search, in order.
    pub namespaces: Vec<SearchTarget>,
    /// Current unix seconds, by which documents age; at 0 none does.
    pub now: i64,
    /// The decisions; without them nothing is governed or out of recall.
    pub decisions: Vec<DecisionMeta>,
}

/// The first failure among the outcomes.
pub open spec fn first_failure(outcomes: Seq<OutcomeView>) -> Option<SearchErrorView>
    decreases outcomes.len(),
{
    if outcomes.len() == 0 {
        None
    } else {
        match first_failure(outcomes.drop_last()) {
            Some(e) => Some(e),
            None => match outcomes.last() {
                OutcomeView::Failed(e) => Some(e),
                _ => None,
            },
        }
    }
}

/// The hits of one namespace, tagged with its tap.
pub open spec fn tagged(results: Seq<SearchResultView>, source: Option<Seq<char>>) -> Seq<
    SourcedHitView,
> {
    results.map_values(|r: SearchResultView| SourcedHitView { result: r, source })
}

/// A round before any namespace answered.
pub open spec fn empty_round() -> RoundView {
    RoundView {
        results: Seq::<SourcedHitView>::empty(),
        primary_namespace: Seq::<char>::empty(),
        primary_indexed_at: None,
        any_namespace_found: false,
        exhausted: true,
    }
}

/// A round with one more namespace's hits: they go behind the others; the
/// first namespace found is the primary one; one that filled the request may
/// hold more.
pub open spec fn round_with(
    round: RoundView,
    target: SearchTargetView,
    outcome: OutcomeView,
    over_fetch: int,
) -> RoundView {
    match outcome {
        OutcomeView::Found(found) => RoundView {
            results: round.results + tagged(found.results, target.source),
            primary_namespace: if round.primary_namespace.len() == 0 {
                target.namespace.name
            } else {
                round.primary_namespace
            },
            primary_indexed_at: if round.primary_namespace.len() == 0 {
                found.indexed_at
            } else {
                round.primary_indexed_at
            },
            any_namespace_found: true,
            exhausted: round.exhausted && found.results.len() < over_fetch,
        },
        _ => round,
    }
}

/// The round of a list of outcomes, in the order of the namespaces.
pub open spec fn round_of(
    targets: Seq<SearchTargetView>,
    outcomes: Seq<OutcomeView>,
    over_fetch: int,
) -> RoundView
    decreases outcomes.len(),
{
    if outcomes.len() == 0 {
        empty_round()
    } else {
        round_with(
            round_of(targets, outcomes.drop_last(), over_fetch),
            targets[outcomes.len() - 1],
            outcomes.last(),
            over_fetch,
        )
    }
}

/// Whether a filter left fewer files than asked for while more hits may be had.
pub open spec fn starved(
    filtered: bool,
    files: int,
    top_k: int,
    exhausted: bool,
    over_fetch: int,
) -> bool {
    filtered && files < top_k && !exhausted && over_fetch < MAX_OVER_FETCH
}

/// How many hits to ask for next.
pub open spec fn widened(over_fetch: int) -> int {
    if over_fetch * OVER_FETCH_GROWTH < MAX_OVER_FETCH {
        over_fetch * OVER_FETCH_GROWTH
    } else {
        MAX_OVER_FETCH as int
    }
}

/// The name of the first namespace, or nothing.
pub open spec fn first_name(targets: Seq<SearchTargetView>) -> Seq<char> {
    if targets.len() > 0 {
        targets[0].namespace.name
    } else {
        Seq::<char>::empty()
    }
}

/// What follows a round: a failure where no namespace exists, a wider fetch
/// where the filter starves the result, else the report.
pub open spec fn step_after(
    targets: Seq<SearchTargetView>,
    ds: Seq<DecisionMetaView>,
    params: SearchParamsView,
    filter: Option<Seq<(Seq<char>, bool)>>,
    round: RoundView,
    over_fetch: int,
) -> SearchStepView {
    let files = grouped(round.results, params, filter, ds);
    if !round.any_namespace_found {
        SearchStepView::Fail(SearchErrorView::IndexNotFound { namespace: first_name(targets) })
    } else if starved(
        filter is Some,
        files.len() as int,
        params.top_k as int,
        round.exhausted,
        over_fetch,
    ) {
        SearchStepView::Widen(widened(over_fetch))
    } else {
        SearchStepView::Report(
            SearchReportView {
                query: params.query,
                namespace: round.primary_namespace,
                indexed_at: round.primary_indexed_at,
                results: files,
            },
        )
    }
}

/// Refuses an index that another embedder built.
pub fn check_embedder(stored: &Option<String>, current: &str) -> (r: Result<(), SearchError>)
    ensures
        match r {
            Ok(_) => stored is None || stored->0@ == current@,
            Err(e) => stored is Some && stored->0@ != current@ && e.deep_view()
                == (SearchErrorView::EmbedderMismatch { stored: stored->0@, current: current@ }),
        },
{
    match stored {
        Some(s) => if same(s.as_str(), current) {
            Ok(())
        } else {
            Err(
                SearchError::EmbedderMismatch {
                    stored: s.clone(),
                    current: current.to_string(),
                },
            )
        },
        None => Ok(()),
    }
}

/// What each namespace is asked: the nearest hits within the search's scope.
pub fn namespace_options(params: &SearchParams, over_fetch: usize) -> (r: SearchOptions)
    ensures
        r.top_k == over_fetch,
        r.path_prefixes.deep_view() == params.scope.deep_view(),
        r.chunk_kind is None,
        r.language is None,
        r.min_score is None,
        r.deep_view() == options_of(params.deep_view(), over_fetch),
{
    SearchOptions {
        top_k: over_fetch,
        path_prefixes: params.scope.clone(),
        chunk_kind: None,
        language: None,
        min_score: None,
    }
}

/// How many hits the first fetch asks for.
pub open spec fn first_fetch(p: SearchParamsView) -> int {
    p.top_k * (p.symbols_per_file + 1) * 3
}

/// What each namespace is asked.
pub open spec fn options_of(p: SearchParamsView, over_fetch: usize) -> SearchOptionsView {
    SearchOptionsView {
        top_k: over_fetch,
        path_prefixes: p.scope,
        chunk_kind: None,
        language: None,
        min_score: None,
    }
}

/// How many hits the first fetch asks for: enough that every reported file may
/// bring its symbols, three times over.
pub fn base_over_fetch(params: &SearchParams) -> (r: usize)
    requires
        params.symbols_per_file < usize::MAX,
        params.top_k * (params.symbols_per_file + 1) <= usize::MAX,
        params.top_k * (params.symbols_per_file + 1) * 3 <= usize::MAX,
    ensures
        r == params.top_k * (params.symbols_per_file + 1) * 3,
        r == first_fetch(params.deep_view()),
{
    params.top_k * (params.symbols_per_file + 1) * 3
}

impl SearchRun {
    /// A search of one namespace, without decay.
    pub fn new(namespace: Namespace) -> (r: SearchRun)
        ensures
            r.namespaces.deep_view() == seq![
                SearchTargetView {
                    namespace: namespace.deep_view(),
                    source: None,
                    decay: crate::config::tap::no_decay(),
                },
            ],
            r.now == 0,
            r.decisions@.len() == 0,
    {
        let mut namespaces: Vec<SearchTarget> = Vec::new();
        let ghost n = namespace.deep_view();
        namespaces.push(SearchTarget { namespace, source: None, decay: DecayConfig::default() });
        let r = SearchRun { namespaces, now: 0, decisions: Vec::new() };
        assert(r.namespaces.deep_view() =~= seq![
            SearchTargetView { namespace: n, source: None, decay: crate::config::tap::no_decay() },
        ]);
        r
    }

    /// A search of several namespaces, each with the label of its tap: none for
    /// the files tap. Without decay.
    pub fn new_multi(namespaces: Vec<(Namespace, Option<String>)>) -> (r: SearchRun)
        ensures
            r.namespaces@.len() == namespaces@.len(),
            forall|i: int|
                0 <= i < namespaces@.len() ==> (#[trigger] r.namespaces@[i]).deep_view() == (
                SearchTargetView {
                    namespace: namespaces@[i].0.deep_view(),
                    source: namespaces@[i].1.deep_view(),
                    decay: crate::config::tap::no_decay(),
                }),
            r.now == 0,
            r.decisions@.len() == 0,
    {
        let mut out: Vec<SearchTarget> = Vec::new();
        let mut i: usize = 0;
        while i < namespaces.len()
            invariant
                i <= namespaces@.len(),
                out@.len() == i,
                forall|j: int|
                    0 <= j < i ==> (#[trigger] out@[j]).deep_view() == (SearchTargetView {
                        namespace: namespaces@[j].0.deep_view(),
                        source: namespaces@[j].1.deep_view(),
                        decay: crate::config::tap::no_decay(),
                    }),
            decreases namespaces@.len() - i,
        {
            let namespace = namespaces[i].0.clone();
            let source = namespaces[i].1.clone();
            out.push(SearchTarget { namespace, source, decay: DecayConfig::default() });
            i += 1;
        }
        SearchRun { namespaces: out, now: 0, decisions: Vec::new() }
    }

    /// A search of several namespaces, each with its decay, at the given time.
    pub fn new_multi_with_decay(
        namespaces: Vec<(Namespace, Option<String>, DecayConfig)>,
        now: i64,
    ) -> (r: SearchRun)
        ensures
            r.namespaces@.len() == namespaces@.len(),
            forall|i: int|
                0 <= i < namespaces@.len() ==> (#[trigger] r.namespaces@[i]).deep_view() == (
                SearchTargetView {
                    namespace: namespaces@[i].0.deep_view(),
                    source: namespaces@[i].1.deep_view(),
                    decay: namespaces@[i].2,
                }),
            r.now == now,
            r.decisions@.len() == 0,
    {
        let mut out: Vec<SearchTarget> = Vec::new();
        let mut i: usize = 0;
        while i < namespaces.len()
            invariant
                i <= namespaces@.len(),
                out@.len() == i,
                forall|j: int|
                    0 <= j < i ==> (#[trigger] out@[j]).deep_view() == (SearchTargetView {
                        namespace: namespaces@[j].0.deep_view(),
                        source: namespaces@[j].1.deep_view(),
                        decay: namespaces@[j].2,
                    }),
            decreases namespaces@.len() - i,
        {
            let namespace = namespaces[i].0.clone();
            let source = namespaces[i].1.clone();
            let decay = namespaces[i].2;
            out.push(SearchTarget { namespace, source, decay });
            i += 1;
        }
        SearchRun { namespaces: out, now, decisions: Vec::new() }
    }

    /// The search with a compiled decision registry.
    pub fn with_decisions(self, decisions: Vec<DecisionMeta>) -> (r: SearchRun)
        ensures
            r.namespaces == self.namespaces,
            r.now == self.now,
            r.decisions == decisions,
    {
        SearchRun { namespaces: self.namespaces, now: self.now, decisions }
    }

    /// Puts the outcomes of all namespaces together in configured order, not in
    /// the order in which they came in; of several failures the first in that
    /// order is reported.
    pub fn assemble_round(&self, outcomes: &Vec<Outcome>, over_fetch: usize) -> (r: Result<
        Round,
        SearchError,
    >)
        requires
            outcomes@.len() == self.namespaces@.len(),
        ensures
            match r {
                Ok(round) => first_failure(outcomes.deep_view()) is None && round.deep_view()
                    == round_of(
                    self.namespaces.deep_view(),
                    outcomes.deep_view(),
                    over_fetch as int,
                ),
                Err(e) => first_failure(outcomes.deep_view()) == Some(e.deep_view()),
            },
    {
        let ghost ov = outcomes.deep_view();
        let ghost tv = self.namespaces.deep_view();
        let mut round = Round {
            results: Vec::new(),
            primary_namespace: String::new(),
            primary_indexed_at: None,
            any_namespace_found: false,
            exhausted: true,
        };
        let mut i: usize = 0;
        assert(round.deep_view() =~= empty_round());
        while i < outcomes.len()
            invariant
                i <= outcomes@.len(),
                outcomes@.len() == self.namespaces@.len(),
                ov == outcomes.deep_view(),
                tv == self.namespaces.deep_view(),
                first_failure(ov.take(i as int)) is None,
                round.deep_view() == round_of(tv, ov.take(i as int), over_fetch as int),
            decreases outcomes@.len() - i,
        {
            let target = &self.namespaces[i];
            proof {
                assert(ov.take(i + 1).drop_last() =~= ov.take(i as int));
                assert(ov.take(i + 1).last() == outcomes@[i as int].deep_view());
                assert(tv[i as int] == target.deep_view());
            }
            match &outcomes[i] {
                Outcome::Missing => {},
                Outcome::Failed(e) => {
                    proof {
                        lemma_first_failure_take(ov, i + 1);
                    }
                    return Err(e.clone());
                },
                Outcome::Found(found) => {
                    let ghost before = round.deep_view();
                    round.any_namespace_found = true;
                    if found.results.len() >= over_fetch {
                        round.exhausted = false;
                    }
                    if round.primary_namespace.as_str().unicode_len() == 0 {
                        round.primary_namespace = target.namespace.as_str().to_string();
                        round.primary_indexed_at = found.indexed_at.clone();
                    }
                    let ghost more = tagged(found.results.deep_view(), target.source.deep_view());
                    let ghost rest = round.deep_view();
                    let mut k: usize = 0;
                    assert(before.results + more.take(0) =~= before.results);
                    while k < found.results.len()
                        invariant
                            k <= found.results@.len(),
                            more == tagged(
                                found.results.deep_view(),
                                target.source.deep_view(),
                            ),
                            round.deep_view() == (RoundView {
                                results: before.results + more.take(k as int),
                                ..rest
                            }),
                        decreases found.results@.len() - k,
                    {
                        let ghost rs = round.results.deep_view();
                        let hit = SourcedHit {
                            result: found.results[k].clone(),
                            source: target.source.clone(),
                        };
                        round.results.push(hit);
                        proof {
                            assert(more[k as int] == hit.deep_view());
                            assert(round.results.deep_view() =~= rs.push(hit.deep_view()));
                            assert(before.results + more.take(k + 1) =~= rs.push(more[k as int]));
                        }
                        k += 1;
                    }
                    proof {
                        assert(more.take(k as int) =~= more);
                        assert(found.results.deep_view().len() == found.results@.len());
                        assert(round.deep_view() =~= round_with(
                            before,
                            target.deep_view(),
                            OutcomeView::Found(found.deep_view()),
                            over_fetch as int,
                        ));
                    }
                },
            }
            i += 1;
        }
        assert(ov.take(i as int) =~= ov);
        Ok(round)
    }

    /// Decides what follows a round.
    pub fn advance(
        &self,
        params: &SearchParams,
        filter: &Option<globset::GlobSet>,
        round: Round,
        over_fetch: usize,
    ) -> (r: SearchStep)
        ensures
            r.deep_view() == step_after(
                self.namespaces.deep_view(),
                self.decisions.deep_view(),
                params.deep_view(),
                filter_globs(*filter),
                round.deep_view(),
                over_fetch as int,
            ),
    {
        if !round.any_namespace_found {
            let namespace = if self.namespaces.len() > 0 {
                self.namespaces[0].namespace.as_str().to_string()
            } else {
                String::new()
            };
            return SearchStep::Fail(SearchError::IndexNotFound { namespace });
        }
        let files = group_results_multi(&round.results, params, filter, &self.decisions);
        assert(files.deep_view().len() == files@.len());
        if filter.is_some() && files.len() < params.top_k && !round.exhausted && over_fetch
            < MAX_OVER_FETCH {
            let more: usize = over_fetch * OVER_FETCH_GROWTH;
            SearchStep::Widen(
                if more < MAX_OVER_FETCH {
                    more
                } else {
                    MAX_OVER_FETCH
                },
            )
        } else {
            SearchStep::Report(
                SearchReport {
                    query: params.query.clone(),
                    namespace: round.primary_namespace,
                    indexed_at: round.primary_indexed_at,
                    results: files,
                },
            )
        }
    }
}

proof fn lemma_first_failure_take(ov: Seq<OutcomeView>, k: int)
    requires
        0 <= k <= ov.len(),
        first_failure(ov.take(k)) is Some,
    ensures
        first_failure(ov) == first_failure(ov.take(k)),
    decreases ov.len() - k,
{
    if k == ov.len() {
        assert(ov.take(k) =~= ov);
    } else {
        assert(ov.take(k + 1).drop_last() =~= ov.take(k));
        lemma_first_failure_take(ov, k + 1);
    }
}

// ---------------------------------------------------------------------------
// Laws
// ---------------------------------------------------------------------------

proof fn lemma_candidates(
    hits: Seq<SourcedHitView>,
    admitted: Seq<bool>,
    ds: Seq<DecisionMetaView>,
    n: int,
)
    requires
        0 <= n <= hits.len(),
    ensures
        forall|k: int|
            0 <= k < candidates(hits, admitted, ds, n).len() ==> 0 <= #[trigger] candidates(
                hits,
                admitted,
                ds,
                n,
            )[k] < n && is_candidate(hits, admitted, ds, candidates(hits, admitted, ds, n)[k]),
        forall|i: int|
            0 <= i < n && is_candidate(hits, admitted, ds, i) ==> #[trigger] candidates(
                hits,
                admitted,
                ds,
                n,
            ).contains(i),
    decreases n,
{
    if n > 0 {
        let head = candidates(hits, admitted, ds, n - 1);
        let all = candidates(hits, admitted, ds, n);
        lemma_candidates(hits, admitted, ds, n - 1);
        assert forall|k: int| 0 <= k < all.len() implies 0 <= #[trigger] all[k] < n && is_candidate(
            hits,
            admitted,
            ds,
            all[k],
        ) by {
            if k < head.len() {
                assert(all[k] == head[k]);
            }
        }
        assert forall|i: int|
            0 <= i < n && is_candidate(hits, admitted, ds, i) implies #[trigger] all.contains(
            i,
        ) by {
            if i == n - 1 {
                assert(all[head.len() as int] == i);
            } else {
                assert(head.contains(i));
                let k = choose|k: int| 0 <= k < head.len() && head[k] == i;
                assert(all[k] == i);
            }
        }
    }
}

/// A report holds at most `top_k` files, in descending order of score.
pub proof fn law_report_is_bounded_and_ranked(
    hits: Seq<SourcedHitView>,
    params: SearchParamsView,
    filter: Option<Seq<(Seq<char>, bool)>>,
    ds: Seq<DecisionMetaView>,
)
    ensures
        grouped(hits, params, filter, ds).len() <= params.top_k,
        forall|i: int, j: int|
            0 <= i < j < grouped(hits, params, filter, ds).len() ==> (#[trigger] grouped(
                hits,
                params,
                filter,
                ds,
            )[i]).score.key() >= (#[trigger] grouped(hits, params, filter, ds)[j]).score.key(),
{
    let g = grouped(hits, params, filter, ds);
    let c = candidates(hits, admits(filter, hits), ds, hits.len() as int);
    let keys = score_keys(hits, c);
    law_top(c, keys, params.top_k as int);
    let t = top_of(c, keys, params.top_k as int);
    assert forall|i: int, j: int| 0 <= i < j < g.len() implies (#[trigger] g[i]).score.key() >= (
    #[trigger] g[j]).score.key() by {
        let order = ranked(keys);
        assert(0 <= order[i] < c.len() && t[i] == c[order[i]]);
        assert(0 <= order[j] < c.len() && t[j] == c[order[j]]);
        assert(keys[order[i]] >= keys[order[j]]);
    }
}

/// Every reported file is a file hit that the filter admits and whose decision,
/// if it is one, is in recall.
pub proof fn law_reported_files_are_admitted(
    hits: Seq<SourcedHitView>,
    params: SearchParamsView,
    filter: Option<Seq<(Seq<char>, bool)>>,
    ds: Seq<DecisionMetaView>,
    k: int,
)
    requires
        0 <= k < grouped(hits, params, filter, ds).len(),
    ensures
        ({
            let f = grouped(hits, params, filter, ds)[k];
            &&& exists|i: int|
                0 <= i < hits.len() && (#[trigger] hits[i]).result.chunk_kind == ChunkKind::File
                    && hits[i].result.file_path == f.path && hits[i].result.score == f.score
                    && hits[i].source == f.source
            &&& filter is Some ==> any_glob_matches(filter->0, f.path)
            &&& !out_of_recall(ds, f.path)
        }),
{
    let a = admits(filter, hits);
    let c = candidates(hits, a, ds, hits.len() as int);
    let keys = score_keys(hits, c);
    lemma_candidates(hits, a, ds, hits.len() as int);
    law_top(c, keys, params.top_k as int);
    let t = top_of(c, keys, params.top_k as int);
    let p = ranked(keys)[k];
    assert(0 <= p < c.len() && t[k] == c[p]);
    let i = c[p];
    assert(0 <= i < hits.len() && is_candidate(hits, a, ds, i));
    assert(hits[i].result.chunk_kind == ChunkKind::File);
}

/// No better file is left out: a candidate scores no higher than the last
/// reported file unless it is reported itself.
pub proof fn law_best_files_are_reported(
    hits: Seq<SourcedHitView>,
    params: SearchParamsView,
    filter: Option<Seq<(Seq<char>, bool)>>,
    ds: Seq<DecisionMetaView>,
    i: int,
)
    requires
        0 <= i < hits.len(),
        is_candidate(hits, admits(filter, hits), ds, i),
    ensures
        ({
            let t = reported(hits, admits(filter, hits), ds, params.top_k as int);
            ||| t.contains(i)
            ||| (t.len() == params.top_k && forall|k: int|
                0 <= k < t.len() ==> hits[#[trigger] t[k]].result.score.key()
                    >= hits[i].result.score.key())
        }),
{
    let a = admits(filter, hits);
    let c = candidates(hits, a, ds, hits.len() as int);
    let keys = score_keys(hits, c);
    lemma_candidates(hits, a, ds, hits.len() as int);
    law_ranked(keys, keys.len() as int);
    law_top(c, keys, params.top_k as int);
    let order = ranked(keys);
    let t = top_of(c, keys, params.top_k as int);
    assert(c.contains(i));
    let q = choose|q: int| 0 <= q < c.len() && c[q] == i;
    assert(order.contains(q));
    let m = choose|m: int| 0 <= m < order.len() && order[m] == q;
    if m < t.len() {
        assert(t[m] == c[order[m]]);
        assert(t.contains(i));
    } else {
        assert forall|k: int| 0 <= k < t.len() implies hits[#[trigger] t[k]].result.score.key()
            >= hits[i].result.score.key() by {
            assert(0 <= order[k] < c.len() && t[k] == c[order[k]]);
            assert(keys[order[k]] >= keys[order[m]]);
        }
    }
}

/// A file's symbols are at most as many as asked for, in descending order of
/// score; without symbols asked for, there are none.
pub proof fn law_symbols_are_bounded_and_ranked(
    hits: Seq<SourcedHitView>,
    path: Seq<char>,
    limit: int,
)
    requires
        0 <= limit,
    ensures
        symbols_of(hits, path, limit).len() <= limit,
        forall|i: int, j: int|
            0 <= i < j < symbols_of(hits, path, limit).len() ==> (#[trigger] symbols_of(
                hits,
                path,
                limit,
            )[i]).score.key() >= (#[trigger] symbols_of(hits, path, limit)[j]).score.key(),
{
    let s = symbols_in(hits, path, hits.len() as int);
    let keys = score_keys(hits, s);
    law_top(s, keys, limit);
    let t = top_of(s, keys, limit);
    let g = symbols_of(hits, path, limit);
    assert forall|i: int, j: int| 0 <= i < j < g.len() implies (#[trigger] g[i]).score.key() >= (
    #[trigger] g[j]).score.key() by {
        let order = ranked(keys);
        assert(0 <= order[i] < s.len() && t[i] == s[order[i]]);
        assert(0 <= order[j] < s.len() && t[j] == s[order[j]]);
        assert(keys[order[i]] >= keys[order[j]]);
    }
}

/// Every decision reported as governing is recalled, covers the path, and is
/// not overridden by another that governs it.
pub proof fn law_governing_decisions(ds: Seq<DecisionMetaView>, covers: Seq<bool>, n: int, k: int)
    requires
        0 <= n <= ds.len(),
        0 <= k < governing_upto(ds, covers, n).len(),
    ensures
        exists|d: int|
            0 <= d < n && #[trigger] governs(ds, covers, d) && !overridden(ds, covers, ds[d].uri)
                && governing_upto(ds, covers, n)[k] == governing_view(ds[d]),
    decreases n,
{
    let head = governing_upto(ds, covers, n - 1);
    if k < head.len() {
        law_governing_decisions(ds, covers, n - 1, k);
        let d = choose|d: int|
            0 <= d < n - 1 && #[trigger] governs(ds, covers, d) && !overridden(
                ds,
                covers,
                ds[d].uri,
            ) && head[k] == governing_view(ds[d]);
        assert(governs(ds, covers, d));
    } else {
        assert(governs(ds, covers, n - 1));
    }
}

/// Every active decision whose areas cover a path governs it, unless another
/// such decision overrides it.
pub proof fn law_covering_decisions_govern(
    ds: Seq<DecisionMetaView>,
    covers: Seq<bool>,
    n: int,
    d: int,
)
    requires
        0 <= d < n <= ds.len(),
        governs(ds, covers, d),
        !overridden(ds, covers, ds[d].uri),
    ensures
        governing_upto(ds, covers, n).contains(governing_view(ds[d])),
    decreases n,
{
    let all = governing_upto(ds, covers, n);
    let head = governing_upto(ds, covers, n - 1);
    if d == n - 1 {
        assert(all[head.len() as int] == governing_view(ds[d]));
    } else {
        law_covering_decisions_govern(ds, covers, n - 1, d);
        let k = choose|k: int| 0 <= k < head.len() && head[k] == governing_view(ds[d]);
        assert(all[k] == governing_view(ds[d]));
    }
}

/// Widening makes progress and ends: each wider fetch asks for more than the
/// one before, and never for more than [`MAX_OVER_FETCH`], at which it stops.
pub proof fn law_widening_ends(
    targets: Seq<SearchTargetView>,
    ds: Seq<DecisionMetaView>,
    params: SearchParamsView,
    filter: Option<Seq<(Seq<char>, bool)>>,
    round: RoundView,
    over_fetch: int,
)
    requires
        over_fetch > 0,
    ensures
        match step_after(targets, ds, params, filter, round, over_fetch) {
            SearchStepView::Widen(n) => over_fetch < n <= MAX_OVER_FETCH && filter is Some
                && !round.exhausted,
            _ => true,
        },
        over_fetch >= MAX_OVER_FETCH || filter is None || round.exhausted ==> !(step_after(
            targets,
            ds,
            params,
            filter,
            round,
            over_fetch,
        ) is Widen),
{
}

/// The hits of all namespaces found, in configured order.
pub open spec fn hits_in_order(targets: Seq<SearchTargetView>, outcomes: Seq<OutcomeView>) -> Seq<
    SourcedHitView,
>
    decreases outcomes.len(),
{
    if outcomes.len() == 0 {
        Seq::<SourcedHitView>::empty()
    } else {
        hits_in_order(targets, outcomes.drop_last()) + match outcomes.last() {
            OutcomeView::Found(f) => tagged(f.results, targets[outcomes.len() - 1].source),
            _ => Seq::<SourcedHitView>::empty(),
        }
    }
}

/// A round holds every namespace's hits in configured order; it has found
/// something exactly when a namespace exists, and is exhausted exactly when no
/// namespace filled the request.
pub proof fn law_rounds_keep_configured_order(
    targets: Seq<SearchTargetView>,
    outcomes: Seq<OutcomeView>,
    over_fetch: int,
)
    requires
        outcomes.len() <= targets.len(),
    ensures
        ({
            let round = round_of(targets, outcomes, over_fetch);
            &&& round.results == hits_in_order(targets, outcomes)
            &&& round.any_namespace_found == exists|i: int|
                0 <= i < outcomes.len() && #[trigger] outcomes[i] is Found
            &&& round.exhausted == forall|i: int|
                0 <= i < outcomes.len() && #[trigger] outcomes[i] is Found
                    ==> outcomes[i]->Found_0.results.len() < over_fetch
        }),
    decreases outcomes.len(),
{
    if outcomes.len() > 0 {
        let head = outcomes.drop_last();
        law_rounds_keep_configured_order(targets, head, over_fetch);
        let n = outcomes.len() - 1;
        assert(forall|i: int| 0 <= i < n ==> head[i] == outcomes[i]);
        let round = round_of(targets, outcomes, over_fetch);
        let before = round_of(targets, head, over_fetch);
        assert(hits_in_order(targets, head) + Seq::<SourcedHitView>::empty() =~= hits_in_order(
            targets,
            head,
        ));
        if outcomes[n] is Found {
            assert(outcomes.last() is Found);
        }
        if before.any_namespace_found {
            let i = choose|i: int| 0 <= i < head.len() && #[trigger] head[i] is Found;
            assert(outcomes[i] is Found);
        }
        if exists|i: int| 0 <= i < outcomes.len() && #[trigger] outcomes[i] is Found {
            let i = choose|i: int| 0 <= i < outcomes.len() && #[trigger] outcomes[i] is Found;
            if i < n {
                assert(head[i] is Found);
            }
        }
        if round.exhausted {
            assert forall|i: int|
                0 <= i < outcomes.len() && #[trigger] outcomes[i] is Found implies outcomes[i]->Found_0.results.len()
                < over_fetch by {
                if i < n {
                    assert(head[i] is Found);
                }
            }
        } else if before.exhausted {
            assert(outcomes[n] is Found);
        } else {
            let i = choose|i: int|
                0 <= i < head.len() && #[trigger] head[i] is Found
                    && head[i]->Found_0.results.len() >= over_fetch;
            assert(outcomes[i] is Found);
        }
    }
}

/// Whether the positions `at` are those of the best hits among the chosen ones:
/// no more than `limit`, each chosen, in descending order of score and, where the
/// scores are equal, in the order of the hits; and a chosen hit that is left out
/// stands behind all of them, of which there are then `limit`.
pub open spec fn are_best(
    hits: Seq<SourcedHitView>,
    chosen: spec_fn(int) -> bool,
    limit: int,
    at: Seq<int>,
) -> bool {
    &&& at.len() <= limit
    &&& forall|k: int|
        0 <= k < at.len() ==> 0 <= #[trigger] at[k] < hits.len() && chosen(at[k])
    &&& forall|j: int, k: int|
        0 <= j < k < at.len() ==> stands_before(hits, #[trigger] at[j], #[trigger] at[k])
    &&& forall|i: int|
        0 <= i < hits.len() && #[trigger] chosen(i) && !at.contains(i) ==> at.len() == limit
            && forall|k: int| 0 <= k < at.len() ==> stands_before(hits, #[trigger] at[k], i)
}

/// Whether hit `i` goes before hit `j`: it scores higher, or it scores the same
/// and came first.
pub open spec fn stands_before(hits: Seq<SourcedHitView>, i: int, j: int) -> bool {
    let a = hits[i].result.score.key();
    let b = hits[j].result.score.key();
    a > b || (a == b && i < j)
}

/// Whether hit `i` may be reported as a file: it is one, the filter, if there is
/// one, matches its path, and no decision at its path is out of recall.
pub open spec fn may_be_reported(
    hits: Seq<SourcedHitView>,
    filter: Option<Seq<(Seq<char>, bool)>>,
    ds: Seq<DecisionMetaView>,
    i: int,
) -> bool {
    let path = hits[i].result.file_path;
    &&& hits[i].result.chunk_kind == ChunkKind::File
    &&& filter matches Some(globs) ==> any_glob_matches(globs, path)
    &&& forall|d: int| 0 <= d < ds.len() && (#[trigger] ds[d]).uri == path ==> ds[d].active
}

/// The hits that may be reported as files.
pub open spec fn reportable(
    hits: Seq<SourcedHitView>,
    filter: Option<Seq<(Seq<char>, bool)>>,
    ds: Seq<DecisionMetaView>,
) -> spec_fn(int) -> bool {
    |i: int| may_be_reported(hits, filter, ds, i)
}

/// The hits that are symbols of that file.
pub open spec fn belonging_to(hits: Seq<SourcedHitView>, path: Seq<char>) -> spec_fn(int) -> bool {
    |i: int| belongs_to(hits, path, i)
}

/// Whether hit `i` is a symbol of that file.
pub open spec fn belongs_to(hits: Seq<SourcedHitView>, path: Seq<char>, i: int) -> bool {
    hits[i].result.chunk_kind == ChunkKind::Symbol && hits[i].result.file_path == path
}

/// Whether a reported symbol says what its hit says, field by field; where the
/// hit has no name, kind or line the report shows an empty one or zero.
pub open spec fn says_the_same(s: SymbolResultView, r: SearchResultView) -> bool {
    &&& s.name == match r.symbol_name {
        Some(name) => name,
        None => ""@,
    }
    &&& s.kind == match r.symbol_kind {
        Some(kind) => kind,
        None => ""@,
    }
    &&& s.lines.len() == 2
    &&& s.lines[0] == match r.start_line {
        Some(line) => line,
        None => 0,
    }
    &&& s.lines[1] == match r.end_line {
        Some(line) => line,
        None => 0,
    }
    &&& s.summary == Some(r.summary)
    &&& s.score == r.score
    &&& s.calls == r.calls
    &&& s.called_by == r.called_by
}

proof fn lemma_symbols_in(hits: Seq<SourcedHitView>, path: Seq<char>, n: int)
    requires
        0 <= n <= hits.len(),
    ensures
        forall|k: int|
            0 <= k < symbols_in(hits, path, n).len() ==> 0 <= #[trigger] symbols_in(
                hits,
                path,
                n,
            )[k] < n && belongs_to(hits, path, symbols_in(hits, path, n)[k]),
        forall|j: int, k: int|
            0 <= j < k < symbols_in(hits, path, n).len() ==> #[trigger] symbols_in(hits, path, n)[j]
                < #[trigger] symbols_in(hits, path, n)[k],
        forall|i: int|
            0 <= i < n && #[trigger] belongs_to(hits, path, i) ==> symbols_in(
                hits,
                path,
                n,
            ).contains(i),
    decreases n,
{
    if n > 0 {
        lemma_symbols_in(hits, path, n - 1);
        let head = symbols_in(hits, path, n - 1);
        let all = symbols_in(hits, path, n);
        assert forall|i: int| 0 <= i < n && #[trigger] belongs_to(
            hits,
            path,
            i,
        ) implies all.contains(i) by {
            if i == n - 1 {
                assert(all[head.len() as int] == i);
            } else {
                let k = choose|k: int| 0 <= k < head.len() && head[k] == i;
                assert(all[k] == i);
            }
        }
    }
}

proof fn lemma_candidates_ascend(
    hits: Seq<SourcedHitView>,
    admitted: Seq<bool>,
    ds: Seq<DecisionMetaView>,
    n: int,
)
    requires
        0 <= n <= hits.len(),
    ensures
        forall|j: int, k: int|
            0 <= j < k < candidates(hits, admitted, ds, n).len() ==> #[trigger] candidates(
                hits,
                admitted,
                ds,
                n,
            )[j] < #[trigger] candidates(hits, admitted, ds, n)[k],
    decreases n,
{
    if n > 0 {
        lemma_candidates_ascend(hits, admitted, ds, n - 1);
        lemma_candidates(hits, admitted, ds, n - 1);
        let head = candidates(hits, admitted, ds, n - 1);
        let all = candidates(hits, admitted, ds, n);
        assert forall|j: int, k: int| 0 <= j < k < all.len() implies #[trigger] all[j]
            < #[trigger] all[k] by {
            assert(all[j] == head[j]);
            if k < head.len() {
                assert(all[k] == head[k]);
            }
        }
    }
}

proof fn lemma_top_are_best(
    hits: Seq<SourcedHitView>,
    chosen: spec_fn(int) -> bool,
    limit: int,
    c: Seq<int>,
)
    requires
        0 <= limit,
        forall|k: int| 0 <= k < c.len() ==> 0 <= #[trigger] c[k] < hits.len() && chosen(c[k]),
        forall|j: int, k: int| 0 <= j < k < c.len() ==> #[trigger] c[j] < #[trigger] c[k],
        forall|i: int| 0 <= i < hits.len() && #[trigger] chosen(i) ==> c.contains(i),
    ensures
        are_best(hits, chosen, limit, top_of(c, score_keys(hits, c), limit)),
{
    let keys = score_keys(hits, c);
    let t = top_of(c, keys, limit);
    let order = ranked(keys);
    law_top(c, keys, limit);
    law_ranked(keys, keys.len() as int);
    assert forall|j: int, k: int| 0 <= j < k < t.len() implies stands_before(
        hits,
        #[trigger] t[j],
        #[trigger] t[k],
    ) by {
        assert(t[j] == c[order[j]] && t[k] == c[order[k]]);
        assert(outranks(keys, order[j], order[k]));
    }
    assert forall|i: int| 0 <= i < hits.len() && #[trigger] chosen(i) && !t.contains(
        i,
    ) implies t.len() == limit && forall|k: int|
        0 <= k < t.len() ==> stands_before(hits, #[trigger] t[k], i) by {
        let q = choose|q: int| 0 <= q < c.len() && c[q] == i;
        assert(order.contains(q));
        let m = choose|m: int| 0 <= m < order.len() && order[m] == q;
        if m < t.len() {
            assert(t[m] == i);
        }
        assert forall|k: int| 0 <= k < t.len() implies stands_before(hits, #[trigger] t[k], i) by {
            assert(t[k] == c[order[k]]);
            assert(outranks(keys, order[k], order[m]));
        }
    }
}

/// A report tells of the best files, and of each what its hit says: the path, the
/// score, the summary and the tap it comes from.
pub proof fn law_report_tells_of_the_best_files(
    hits: Seq<SourcedHitView>,
    params: SearchParamsView,
    filter: Option<Seq<(Seq<char>, bool)>>,
    ds: Seq<DecisionMetaView>,
)
    ensures
        exists|at: Seq<int>|
            {
                let g = grouped(hits, params, filter, ds);
                &&& #[trigger] are_best(
                    hits,
                    reportable(hits, filter, ds),
                    params.top_k as int,
                    at,
                )
                &&& at.len() == g.len()
                &&& forall|k: int|
                    0 <= k < g.len() ==> {
                        let r = hits[at[k]].result;
                        &&& (#[trigger] g[k]).path == r.file_path
                        &&& g[k].score == r.score
                        &&& g[k].summary == Some(r.summary)
                        &&& g[k].source == hits[at[k]].source
                    }
            },
{
    let a = admits(filter, hits);
    let n = hits.len() as int;
    let c = candidates(hits, a, ds, n);
    lemma_candidates(hits, a, ds, n);
    lemma_candidates_ascend(hits, a, ds, n);
    let chosen = reportable(hits, filter, ds);
    assert forall|i: int| 0 <= i < n implies (#[trigger] may_be_reported(hits, filter, ds, i)
        == is_candidate(hits, a, ds, i)) by {}
    assert forall|i: int| 0 <= i < n && #[trigger] chosen(i) implies c.contains(i) by {}
    assert forall|k: int| 0 <= k < c.len() implies 0 <= #[trigger] c[k] < n && chosen(c[k]) by {
        assert(may_be_reported(hits, filter, ds, c[k]));
    }
    lemma_top_are_best(hits, chosen, params.top_k as int, c);
    let at = reported(hits, a, ds, params.top_k as int);
    assert(are_best(hits, chosen, params.top_k as int, at));
}

/// Where symbols are asked for, a file's are the best of the symbol hits of that
/// same file, and each is shown with the name, kind, lines, summary, score, calls
/// and callers of its own hit; where they are not, none is shown.
pub proof fn law_symbols_tell_of_their_hits(
    hits: Seq<SourcedHitView>,
    params: SearchParamsView,
    filter: Option<Seq<(Seq<char>, bool)>>,
    ds: Seq<DecisionMetaView>,
    k: int,
)
    requires
        0 <= k < grouped(hits, params, filter, ds).len(),
    ensures
        ({
            let f = grouped(hits, params, filter, ds)[k];
            &&& params.no_symbols ==> f.symbols.len() == 0
            &&& !params.no_symbols ==> exists|at: Seq<int>|
                {
                    &&& #[trigger] are_best(
                        hits,
                        belonging_to(hits, f.path),
                        params.symbols_per_file as int,
                        at,
                    )
                    &&& at.len() == f.symbols.len()
                    &&& forall|j: int|
                        0 <= j < at.len() ==> says_the_same(
                            #[trigger] f.symbols[j],
                            hits[at[j]].result,
                        )
                }
        }),
{
    let f = grouped(hits, params, filter, ds)[k];
    let n = hits.len() as int;
    let c = symbols_in(hits, f.path, n);
    lemma_symbols_in(hits, f.path, n);
    reveal_strlit("");
    assert(""@ =~= Seq::<char>::empty());
    if !params.no_symbols {
        let chosen = belonging_to(hits, f.path);
        let limit = params.symbols_per_file as int;
        assert forall|i: int| 0 <= i < n && #[trigger] chosen(i) implies c.contains(i) by {
            assert(belongs_to(hits, f.path, i));
        }
        lemma_top_are_best(hits, chosen, limit, c);
        let at = top_of(c, score_keys(hits, c), limit);
        assert(f.symbols == symbols_of(hits, f.path, limit));
        assert(are_best(hits, chosen, limit, at));
    }
}

/// Whether decision `d` rules a path: it is recalled, one of its areas matches the
/// path, and no other recalled decision whose areas match it overrides it.
pub open spec fn rules(ds: Seq<DecisionMetaView>, path: Seq<char>, d: int) -> bool {
    &&& 0 <= d < ds.len()
    &&& ds[d].active
    &&& any_glob_matches(ds[d].areas, path)
    &&& forall|e: int|
        0 <= e < ds.len() && (#[trigger] ds[e]).active && any_glob_matches(ds[e].areas, path)
            && ds[e].uri != ds[d].uri ==> !ds[e].overrides.contains(ds[d].uri)
}

proof fn lemma_governing_places(ds: Seq<DecisionMetaView>, path: Seq<char>, n: int) -> (at: Seq<
    int,
>)
    requires
        0 <= n <= ds.len(),
    ensures
        at.len() == governing_upto(ds, covering(ds, path), n).len(),
        forall|j: int, k: int| 0 <= j < k < at.len() ==> #[trigger] at[j] < #[trigger] at[k],
        forall|k: int|
            0 <= k < at.len() ==> 0 <= #[trigger] at[k] < n && governing_upto(
                ds,
                covering(ds, path),
                n,
            )[k] == governing_view(ds[at[k]]),
        forall|d: int| 0 <= d < n ==> (at.contains(d) <==> #[trigger] rules(ds, path, d)),
    decreases n,
{
    if n <= 0 {
        Seq::<int>::empty()
    } else {
        let covers = covering(ds, path);
        let d0 = n - 1;
        let head = lemma_governing_places(ds, path, d0);
        let here = governs(ds, covers, d0) && !overridden(ds, covers, ds[d0].uri);
        assert(here == rules(ds, path, d0)) by {
            if governs(ds, covers, d0) && overridden(ds, covers, ds[d0].uri) {
                let e = choose|e: int|
                    0 <= e < ds.len() && #[trigger] governs(ds, covers, e) && ds[e].uri
                        != ds[d0].uri && ds[e].overrides.contains(ds[d0].uri);
                assert(ds[e].active);
            }
            if governs(ds, covers, d0) && !rules(ds, path, d0) {
                let e = choose|e: int|
                    0 <= e < ds.len() && (#[trigger] ds[e]).active && any_glob_matches(
                        ds[e].areas,
                        path,
                    ) && ds[e].uri != ds[d0].uri && ds[e].overrides.contains(ds[d0].uri);
                assert(governs(ds, covers, e));
            }
        }
        let at = if here {
            head.push(d0)
        } else {
            head
        };
        assert forall|d: int| 0 <= d < n implies (at.contains(d) <==> #[trigger] rules(
            ds,
            path,
            d,
        )) by {
            if d == d0 {
                if here {
                    assert(at[head.len() as int] == d0);
                } else if at.contains(d0) {
                    let k = choose|k: int| 0 <= k < head.len() && head[k] == d0;
                    assert(head[k] < d0);
                }
            } else {
                assert(head.contains(d) <==> rules(ds, path, d));
                if head.contains(d) {
                    let k = choose|k: int| 0 <= k < head.len() && head[k] == d;
                    assert(at[k] == d);
                }
                if at.contains(d) {
                    let k = choose|k: int| 0 <= k < at.len() && at[k] == d;
                    assert(head[k] == d);
                }
            }
        }
        at
    }
}

/// A file of this repository is shown with every decision that rules its path, in
/// the order of the decisions, each by its address, its title and its status; one
/// that none rules, or that a tap brought, is shown with none.
pub proof fn law_files_are_shown_with_what_rules_them(
    hits: Seq<SourcedHitView>,
    params: SearchParamsView,
    filter: Option<Seq<(Seq<char>, bool)>>,
    ds: Seq<DecisionMetaView>,
    k: int,
)
    requires
        0 <= k < grouped(hits, params, filter, ds).len(),
    ensures
        ({
            let f = grouped(hits, params, filter, ds)[k];
            &&& f.governed_by is Some <==> f.source is None && exists|d: int|
                #[trigger] rules(ds, f.path, d)
            &&& f.governed_by matches Some(list) ==> exists|at: Seq<int>|
                {
                    &&& #[trigger] at.len() == list.len()
                    &&& forall|i: int, j: int|
                        0 <= i < j < at.len() ==> #[trigger] at[i] < #[trigger] at[j]
                    &&& forall|d: int| #[trigger] at.contains(d) <==> rules(ds, f.path, d)
                    &&& forall|j: int|
                        0 <= j < at.len() ==> (#[trigger] list[j]).path == ds[at[j]].uri
                            && list[j].title == ds[at[j]].title && list[j].status
                            == ds[at[j]].status
                }
        }),
{
    let f = grouped(hits, params, filter, ds)[k];
    let at = lemma_governing_places(ds, f.path, ds.len() as int);
    let list = governing(ds, covering(ds, f.path));
    let i = reported(hits, admits(filter, hits), ds, params.top_k as int)[k];
    assert(f == file_view(hits, params, ds, covering(ds, f.path), i));
    assert forall|d: int| #[trigger] at.contains(d) <==> rules(ds, f.path, d) by {
        if at.contains(d) {
            let j = choose|j: int| 0 <= j < at.len() && at[j] == d;
            assert(0 <= at[j] < ds.len());
        }
    }
    if list.len() > 0 {
        assert(at.contains(at[0]));
        assert(rules(ds, f.path, at[0]));
    }
    if exists|d: int| #[trigger] rules(ds, f.path, d) {
        let d = choose|d: int| #[trigger] rules(ds, f.path, d);
        assert(at.contains(d));
    }
    assert(at.len() == list.len());
}

/// What a decision is to search: its address, its title and its status, whether
/// that status is recalled, its areas, matched without regard to case, and the
/// addresses of those it overrides, each in the order given.
pub proof fn law_decisions_keep_their_parts(d: DecisionEntryView)
    ensures
        ({
            let m = meta_of(d);
            &&& m.uri == uri_of(d.id)
            &&& m.title == d.title
            &&& m.status == d.status.name()
            &&& m.active == d.status.recalled()
            &&& m.areas.len() == d.areas.len()
            &&& forall|i: int|
                0 <= i < d.areas.len() ==> #[trigger] m.areas[i] == (d.areas[i], true)
            &&& m.overrides.len() == d.overrides.len()
            &&& forall|i: int|
                0 <= i < d.overrides.len() ==> #[trigger] m.overrides[i] == uri_of(d.overrides[i])
        }),
{
}

/// The primary namespace of a round is the first one found that has a name, and
/// the time shown is the one at which that same namespace was indexed.
pub proof fn law_primary_namespace(
    targets: Seq<SearchTargetView>,
    outcomes: Seq<OutcomeView>,
    over_fetch: int,
    i: int,
)
    requires
        outcomes.len() <= targets.len(),
        0 <= i < outcomes.len(),
        outcomes[i] is Found,
        targets[i].namespace.name.len() > 0,
        forall|j: int|
            0 <= j < i && #[trigger] outcomes[j] is Found ==> targets[j].namespace.name.len() == 0,
    ensures
        ({
            let round = round_of(targets, outcomes, over_fetch);
            &&& round.primary_namespace == targets[i].namespace.name
            &&& round.primary_indexed_at == outcomes[i]->Found_0.indexed_at
        }),
    decreases outcomes.len(),
{
    let head = outcomes.drop_last();
    assert(forall|j: int| 0 <= j < head.len() ==> head[j] == outcomes[j]);
    if i < outcomes.len() - 1 {
        law_primary_namespace(targets, head, over_fetch, i);
    } else {
        lemma_no_primary(targets, head, over_fetch);
    }
}

proof fn lemma_no_primary(
    targets: Seq<SearchTargetView>,
    outcomes: Seq<OutcomeView>,
    over_fetch: int,
)
    requires
        outcomes.len() <= targets.len(),
        forall|j: int|
            0 <= j < outcomes.len() && #[trigger] outcomes[j] is Found
                ==> targets[j].namespace.name.len() == 0,
    ensures
        round_of(targets, outcomes, over_fetch).primary_namespace.len() == 0,
    decreases outcomes.len(),
{
    if outcomes.len() > 0 {
        let head = outcomes.drop_last();
        assert(forall|j: int| 0 <= j < head.len() ==> head[j] == outcomes[j]);
        lemma_no_primary(targets, head, over_fetch);
        assert(outcomes[outcomes.len() - 1] == outcomes.last());
    }
}

/// Every hit of a round is one that a namespace brought, under the tap of that
/// namespace, and every hit that a namespace brought is in the round.
pub proof fn law_rounds_keep_every_hit(
    targets: Seq<SearchTargetView>,
    outcomes: Seq<OutcomeView>,
    over_fetch: int,
)
    requires
        outcomes.len() <= targets.len(),
    ensures
        forall|h: SourcedHitView| #[trigger]
            round_of(targets, outcomes, over_fetch).results.contains(h) <==> exists|i: int|
                {
                    &&& 0 <= i < outcomes.len()
                    &&& #[trigger] outcomes[i] is Found
                    &&& outcomes[i]->Found_0.results.contains(h.result)
                    &&& h.source == targets[i].source
                },
    decreases outcomes.len(),
{
    if outcomes.len() > 0 {
        let n = outcomes.len() - 1;
        let head = outcomes.drop_last();
        law_rounds_keep_every_hit(targets, head, over_fetch);
        assert(forall|j: int| 0 <= j < n ==> head[j] == outcomes[j]);
        let before = round_of(targets, head, over_fetch).results;
        let all = round_of(targets, outcomes, over_fetch).results;
        let more = match outcomes[n] {
            OutcomeView::Found(f) => tagged(f.results, targets[n].source),
            _ => Seq::<SourcedHitView>::empty(),
        };
        assert(all =~= before + more);
        assert forall|h: SourcedHitView| #[trigger] all.contains(h) <==> exists|i: int|
            {
                &&& 0 <= i < outcomes.len()
                &&& #[trigger] outcomes[i] is Found
                &&& outcomes[i]->Found_0.results.contains(h.result)
                &&& h.source == targets[i].source
            } by {
            if all.contains(h) {
                let q = choose|q: int| 0 <= q < all.len() && all[q] == h;
                if q < before.len() {
                    assert(before[q] == h);
                    assert(before.contains(h));
                    let i = choose|i: int|
                        {
                            &&& 0 <= i < head.len()
                            &&& #[trigger] head[i] is Found
                            &&& head[i]->Found_0.results.contains(h.result)
                            &&& h.source == targets[i].source
                        };
                    assert(outcomes[i] is Found);
                } else {
                    let m = q - before.len();
                    assert(more[m] == h);
                    assert(outcomes[n] is Found);
                    assert(outcomes[n]->Found_0.results[m] == h.result);
                }
            }
            if exists|i: int|
                {
                    &&& 0 <= i < outcomes.len()
                    &&& #[trigger] outcomes[i] is Found
                    &&& outcomes[i]->Found_0.results.contains(h.result)
                    &&& h.source == targets[i].source
                } {
                let i = choose|i: int|
                    {
                        &&& 0 <= i < outcomes.len()
                        &&& #[trigger] outcomes[i] is Found
                        &&& outcomes[i]->Found_0.results.contains(h.result)
                        &&& h.source == targets[i].source
                    };
                if i < n {
                    assert(head[i] is Found);
                    assert(before.contains(h));
                    let q = choose|q: int| 0 <= q < before.len() && before[q] == h;
                    assert(all[q] == h);
                } else {
                    let rs = outcomes[n]->Found_0.results;
                    let m = choose|m: int| 0 <= m < rs.len() && rs[m] == h.result;
                    assert(more[m] == h);
                    assert(all[before.len() + m] == h);
                }
            }
        }
    }
}

/// What comes of a round: with no namespace found, the failure that names the
/// first one asked; with a filter, fewer files than asked for, and more to be had
/// below the ceiling, a wider fetch, as much wider as one step allows; else the
/// report of the query, the primary namespace and the files of the round.
pub proof fn law_what_comes_of_a_round(
    targets: Seq<SearchTargetView>,
    ds: Seq<DecisionMetaView>,
    params: SearchParamsView,
    filter: Option<Seq<(Seq<char>, bool)>>,
    round: RoundView,
    over_fetch: int,
)
    ensures
        ({
            let files = grouped(round.results, params, filter, ds);
            let step = step_after(targets, ds, params, filter, round, over_fetch);
            &&& !round.any_namespace_found && targets.len() > 0 ==> step == SearchStepView::Fail(
                SearchErrorView::IndexNotFound { namespace: targets[0].namespace.name },
            )
            &&& step is Fail <==> !round.any_namespace_found
            &&& step is Widen <==> round.any_namespace_found && filter is Some && files.len()
                < params.top_k && !round.exhausted && over_fetch < MAX_OVER_FETCH
            &&& step matches SearchStepView::Widen(n) ==> n <= MAX_OVER_FETCH && n <= over_fetch
                * OVER_FETCH_GROWTH && (n == MAX_OVER_FETCH || n == over_fetch * OVER_FETCH_GROWTH)
            &&& step matches SearchStepView::Report(r) ==> r.query == params.query && r.namespace
                == round.primary_namespace && r.indexed_at == round.primary_indexed_at && r.results
                == files
        }),
{
}

/// The words of an error hold what it is about.
pub proof fn law_errors_name_what_they_are_about(e: SearchErrorView)
    ensures
        match e {
            SearchErrorView::InvalidArea { id, area, .. } => occurs(
                error_words(e),
                decimal(id as nat),
            ) && occurs(error_words(e), area),
            SearchErrorView::InvalidFilter { pattern, .. } => has_suffix(error_words(e), pattern),
            SearchErrorView::EmbedderMismatch { stored, current } => occurs(
                error_words(e),
                stored + ", but search is configured for "@ + current,
            ),
            SearchErrorView::IndexNotFound { namespace } => occurs(error_words(e), namespace),
            SearchErrorView::Outside { message } => error_words(e) == message,
            _ => true,
        },
{
    match e {
        SearchErrorView::InvalidArea { id, area, .. } => {
            let d = decimal(id as nat);
            let q = " has invalid area glob '"@;
            lemma_part_at_end("decision "@, d);
            lemma_part_stays("decision "@ + d, d, q);
            lemma_part_stays("decision "@ + d + q, d, area);
            lemma_part_stays("decision "@ + d + q + area, d, "'"@);
            lemma_part_between("decision "@ + d + q, area, "'"@);
        },
        SearchErrorView::InvalidFilter { pattern, .. } => {
            lemma_part_at_end("invalid --filter glob: "@, pattern);
        },
        SearchErrorView::EmbedderMismatch { stored, current } => {
            lemma_three_at_end(
                "embedder mismatch: index was built with "@,
                stored,
                ", but search is configured for "@,
                current,
            );
            lemma_part_stays(
                "embedder mismatch: index was built with "@ + stored
                    + ", but search is configured for "@ + current,
                stored + ", but search is configured for "@ + current,
                "; run `wdpkr index --full` to reindex or change your embedder config"@,
            );
        },
        SearchErrorView::IndexNotFound { namespace } => {
            lemma_part_between(
                "index not found for namespace '"@,
                namespace,
                "'; run `wdpkr index` first"@,
            );
        },
        _ => {},
    }
}

/// Of several failures the first in the order of the namespaces is told, and there
/// is one exactly if a namespace failed.
pub proof fn law_the_first_failure_is_told(outcomes: Seq<OutcomeView>)
    ensures
        match first_failure(outcomes) {
            Some(e) => exists|i: int|
                {
                    &&& 0 <= i < outcomes.len()
                    &&& #[trigger] outcomes[i] == OutcomeView::Failed(e)
                    &&& forall|j: int| 0 <= j < i ==> !(#[trigger] outcomes[j] is Failed)
                },
            None => forall|j: int|
                0 <= j < outcomes.len() ==> !(#[trigger] outcomes[j] is Failed),
        },
    decreases outcomes.len(),
{
    if outcomes.len() > 0 {
        let head = outcomes.drop_last();
        let n = head.len() as int;
        law_the_first_failure_is_told(head);
        assert(forall|j: int| 0 <= j < n ==> #[trigger] outcomes[j] == head[j]);
        match first_failure(head) {
            Some(e) => {
                let i = choose|i: int|
                    {
                        &&& 0 <= i < head.len()
                        &&& #[trigger] head[i] == OutcomeView::Failed(e)
                        &&& forall|j: int| 0 <= j < i ==> !(#[trigger] head[j] is Failed)
                    };
                assert(outcomes[i] == OutcomeView::Failed(e));
                assert forall|j: int| 0 <= j < i implies !(#[trigger] outcomes[j] is Failed) by {
                    assert(head[j] == outcomes[j]);
                }
            },
            None => {
                assert(outcomes[n] == outcomes.last());
                assert forall|j: int| 0 <= j < n implies !(#[trigger] outcomes[j] is Failed) by {
                    assert(head[j] == outcomes[j]);
                }
            },
        }
    }
}

/// Decisions fail to compile exactly if the areas of one do, and the error is that
/// of the first such decision: it tells the decision and the area.
pub proof fn law_the_first_bad_area_is_told(ds: Seq<DecisionEntryView>)
    ensures
        match areas_failure(ds) {
            Some(e) => exists|d: int|
                {
                    &&& 0 <= d < ds.len()
                    &&& globs_failure((#[trigger] ds[d]).areas) is Some
                    &&& e matches SearchErrorView::InvalidArea { id, area, .. } ==> id == ds[d].id
                        && ds[d].areas.contains(area)
                    &&& forall|j: int|
                        0 <= j < d ==> globs_failure((#[trigger] ds[j]).areas) is None
                },
            None => forall|j: int|
                0 <= j < ds.len() ==> globs_failure((#[trigger] ds[j]).areas) is None,
        },
    decreases ds.len(),
{
    if ds.len() > 0 {
        let head = ds.drop_last();
        let n = head.len() as int;
        law_the_first_bad_area_is_told(head);
        assert(forall|j: int| 0 <= j < n ==> #[trigger] ds[j] == head[j]);
        assert(ds[n] == ds.last());
        match areas_failure(head) {
            Some(e) => {
                let d = choose|d: int|
                    {
                        &&& 0 <= d < head.len()
                        &&& globs_failure((#[trigger] head[d]).areas) is Some
                        &&& e matches SearchErrorView::InvalidArea { id, area, .. } ==> id
                            == head[d].id && head[d].areas.contains(area)
                        &&& forall|j: int|
                            0 <= j < d ==> globs_failure((#[trigger] head[j]).areas) is None
                    };
                assert(globs_failure(ds[d].areas) is Some);
                assert forall|j: int| 0 <= j < d implies globs_failure(
                    (#[trigger] ds[j]).areas,
                ) is None by {
                    assert(head[j] == ds[j]);
                }
            },
            None => {
                assert forall|j: int| 0 <= j < n implies globs_failure(
                    (#[trigger] ds[j]).areas,
                ) is None by {
                    assert(head[j] == ds[j]);
                }
                law_the_first_bad_pattern_is_told(ds[n].areas);
                if let Some(GlobFailureView::Pattern { index, cause }) = globs_failure(
                    ds[n].areas,
                ) {
                    assert(ds[n].areas.contains(ds[n].areas[index]));
                }
            },
        }
    }
}

/// Filters fail to compile exactly if they do as patterns, and the error tells the
/// first that does not.
pub proof fn law_the_first_bad_filter_is_told(filters: Seq<Seq<char>>)
    ensures
        filters.len() > 0 ==> (filter_failure(filters) is Some <==> globs_failure(filters) is Some),
        filters.len() == 0 ==> filter_failure(filters) is None,
        filter_failure(filters) matches Some(SearchErrorView::InvalidFilter { pattern, cause })
            ==> exists|k: int|
            {
                &&& 0 <= k < filters.len()
                &&& #[trigger] filters[k] == pattern
                &&& glob_error(pattern, true) == Some(cause)
                &&& forall|j: int| 0 <= j < k ==> glob_error(#[trigger] filters[j], true) is None
            },
{
    law_the_first_bad_pattern_is_told(filters);
    if let Some(GlobFailureView::Pattern { index, cause }) = globs_failure(filters) {
        assert(filters[index] == filters[index]);
    }
}

/// The first fetch has room, three times over, for every file asked for and for each
/// of its symbols asked for.
pub proof fn law_the_first_fetch_has_room(p: SearchParamsView)
    ensures
        first_fetch(p) == 3 * (p.top_k + p.top_k * p.symbols_per_file),
{
    let k = p.top_k as int;
    let s = p.symbols_per_file as int;
    assert(k * (s + 1) == k + k * s) by (nonlinear_arith);
}

/// A namespace is asked within the scope of the search and by nothing else: files
/// and symbols of every language and of any score may come back, as many as are
/// fetched.
pub proof fn law_namespaces_are_asked_within_the_scope(p: SearchParamsView, over_fetch: usize)
    ensures
        ({
            let o = options_of(p, over_fetch);
            &&& o.top_k == over_fetch
            &&& o.path_prefixes == p.scope
            &&& o.chunk_kind is None
            &&& o.language is None
            &&& o.min_score is None
        }),
{
}

} // verus!
