//! Running a suite: what each case asks, how its result is graded, and what
//! the averages over all cases and over each tag are made of.
use vstd::prelude::*;

use crate::eval::metrics::{
    compression, law_found_and_missed, ratio_of, relevance, relevance_of, symbol_relevance,
    symbol_relevance_of, tokens_in, tokens_of, CompressionMetrics, CompressionMetricsView, Content,
    ContentView, Ratio, RelevanceMetrics, RelevanceMetricsView, SymbolRelevanceMetrics,
    SymbolRelevanceMetricsView,
};
use crate::eval::{EvalCase, EvalCaseView};
use crate::number::Real;
use crate::rank::{ints, law_ranked, places, rank, ranked};
use crate::search::{FileResultView, SearchParams, SearchParamsView, SearchReport, SearchReportView,
    SymbolResultView};
use crate::text::{precedes, same};
use crate::textmap::TextMap;

verus! {

/// How many symbols of each file a case looks at.
pub const SYMBOLS_PER_FILE: usize = 3;

/// The graded result of a case.
#[derive(Debug)]
pub struct CaseResult {
    pub query: String,
    pub label: Option<String>,
    pub tags: Vec<String>,
    pub compression: CompressionMetrics,
    pub relevance: Option<RelevanceMetrics>,
    pub symbol_relevance: Option<SymbolRelevanceMetrics>,
    pub files_returned: usize,
    pub elapsed_ms: u64,
}

/// What a [`CaseResult`] holds.
#[verifier::ext_equal]
pub struct CaseResultView {
    pub query: Seq<char>,
    pub label: Option<Seq<char>>,
    pub tags: Seq<Seq<char>>,
    pub compression: CompressionMetricsView,
    pub relevance: Option<RelevanceMetricsView>,
    pub symbol_relevance: Option<SymbolRelevanceMetricsView>,
    pub files_returned: usize,
    pub elapsed_ms: u64,
}

impl DeepView for CaseResult {
    type V = CaseResultView;

    open spec fn deep_view(&self) -> CaseResultView {
        CaseResultView {
            query: self.query@,
            label: self.label.deep_view(),
            tags: self.tags.deep_view(),
            compression: self.compression.deep_view(),
            relevance: self.relevance.deep_view(),
            symbol_relevance: self.symbol_relevance.deep_view(),
            files_returned: self.files_returned,
            elapsed_ms: self.elapsed_ms,
        }
    }
}

impl Clone for CaseResult {
    fn clone(&self) -> (r: Self)
        ensures
            r.deep_view() == self.deep_view(),
    {
        CaseResult {
            query: self.query.clone(),
            label: self.label.clone(),
            tags: self.tags.clone(),
            compression: self.compression.clone(),
            relevance: self.relevance.clone(),
            symbol_relevance: self.symbol_relevance.clone(),
            files_returned: self.files_returned,
            elapsed_ms: self.elapsed_ms,
        }
    }
}

/// The values that a suite's averages are made of.
#[derive(Debug)]
pub struct SummaryInputs {
    pub total_cases: usize,
    pub compressions: Vec<Ratio>,
    pub precisions: Vec<Ratio>,
    pub recalls: Vec<Ratio>,
    pub reciprocal_ranks: Vec<Ratio>,
    pub symbol_recalls: Vec<Ratio>,
    pub symbol_reciprocal_ranks: Vec<Ratio>,
}

/// What a [`SummaryInputs`] holds.
#[verifier::ext_equal]
pub struct SummaryInputsView {
    pub total_cases: usize,
    pub compressions: Seq<Ratio>,
    pub precisions: Seq<Ratio>,
    pub recalls: Seq<Ratio>,
    pub reciprocal_ranks: Seq<Ratio>,
    pub symbol_recalls: Seq<Ratio>,
    pub symbol_reciprocal_ranks: Seq<Ratio>,
}

impl DeepView for SummaryInputs {
    type V = SummaryInputsView;

    open spec fn deep_view(&self) -> SummaryInputsView {
        SummaryInputsView {
            total_cases: self.total_cases,
            compressions: self.compressions.deep_view(),
            precisions: self.precisions.deep_view(),
            recalls: self.recalls.deep_view(),
            reciprocal_ranks: self.reciprocal_ranks.deep_view(),
            symbol_recalls: self.symbol_recalls.deep_view(),
            symbol_reciprocal_ranks: self.symbol_reciprocal_ranks.deep_view(),
        }
    }
}

impl Clone for SummaryInputs {
    fn clone(&self) -> (r: Self)
        ensures
            r.deep_view() == self.deep_view(),
    {
        SummaryInputs {
            total_cases: self.total_cases,
            compressions: self.compressions.clone(),
            precisions: self.precisions.clone(),
            recalls: self.recalls.clone(),
            reciprocal_ranks: self.reciprocal_ranks.clone(),
            symbol_recalls: self.symbol_recalls.clone(),
            symbol_reciprocal_ranks: self.symbol_reciprocal_ranks.clone(),
        }
    }
}

/// The values that a tag's averages are made of.
#[derive(Debug)]
pub struct TagInputs {
    pub tag: String,
    pub cases: usize,
    pub precisions: Vec<Ratio>,
    pub recalls: Vec<Ratio>,
    pub reciprocal_ranks: Vec<Ratio>,
}

/// What a [`TagInputs`] holds.
#[verifier::ext_equal]
pub struct TagInputsView {
    pub tag: Seq<char>,
    pub cases: usize,
    pub precisions: Seq<Ratio>,
    pub recalls: Seq<Ratio>,
    pub reciprocal_ranks: Seq<Ratio>,
}

impl DeepView for TagInputs {
    type V = TagInputsView;

    open spec fn deep_view(&self) -> TagInputsView {
        TagInputsView {
            tag: self.tag@,
            cases: self.cases,
            precisions: self.precisions.deep_view(),
            recalls: self.recalls.deep_view(),
            reciprocal_ranks: self.reciprocal_ranks.deep_view(),
        }
    }
}

impl Clone for TagInputs {
    fn clone(&self) -> (r: Self)
        ensures
            r.deep_view() == self.deep_view(),
    {
        TagInputs {
            tag: self.tag.clone(),
            cases: self.cases,
            precisions: self.precisions.clone(),
            recalls: self.recalls.clone(),
            reciprocal_ranks: self.reciprocal_ranks.clone(),
        }
    }
}

/// What a case searches for.
pub open spec fn params_of(case: EvalCaseView) -> SearchParamsView {
    SearchParamsView {
        query: case.query,
        top_k: case.top_k,
        symbols_per_file: SYMBOLS_PER_FILE,
        no_symbols: false,
        scope: Seq::<Seq<char>>::empty(),
        filters: Seq::<Seq<char>>::empty(),
    }
}

/// What a case searches for.
pub fn case_params(case: &EvalCase) -> (r: SearchParams)
    ensures
        r.deep_view() == (SearchParamsView {
            query: case.query@,
            top_k: case.top_k,
            symbols_per_file: SYMBOLS_PER_FILE,
            no_symbols: false,
            scope: Seq::<Seq<char>>::empty(),
            filters: Seq::<Seq<char>>::empty(),
        }),
        r.deep_view() == params_of(case.deep_view()),
{
    let r = SearchParams {
        query: case.query.clone(),
        top_k: case.top_k,
        symbols_per_file: SYMBOLS_PER_FILE,
        no_symbols: false,
        scope: Vec::new(),
        filters: Vec::new(),
    };
    assert(r.scope.deep_view() =~= Seq::<Seq<char>>::empty());
    assert(r.filters.deep_view() =~= Seq::<Seq<char>>::empty());
    r
}

/// The paths of a report in rank order.
pub open spec fn paths_of(files: Seq<FileResultView>) -> Seq<Seq<char>> {
    files.map_values(|f: FileResultView| f.path)
}

/// The names of a file's symbols in rank order.
pub open spec fn names_of(symbols: Seq<SymbolResultView>) -> Seq<Seq<char>> {
    symbols.map_values(|s: SymbolResultView| s.name)
}

/// The names of all symbols in rank order: files in order, and the symbols of
/// each in order.
pub open spec fn symbol_names(files: Seq<FileResultView>) -> Seq<Seq<char>>
    decreases files.len(),
{
    if files.len() == 0 {
        Seq::<Seq<char>>::empty()
    } else {
        symbol_names(files.drop_last()) + names_of(files.last().symbols)
    }
}

/// The graded result of a case: relevance only where it expects something.
pub open spec fn graded(
    case: EvalCaseView,
    report: SearchReportView,
    json: Seq<char>,
    contents: Seq<ContentView>,
    elapsed_ms: u64,
) -> CaseResultView {
    CaseResultView {
        query: case.query,
        label: case.label,
        tags: case.tags,
        compression: CompressionMetricsView {
            output_tokens: tokens_of(json) as usize,
            source_tokens: tokens_in(contents) as usize,
            ratio: ratio_of(tokens_of(json), tokens_in(contents)),
        },
        relevance: if case.expected_files.len() == 0 {
            None
        } else {
            Some(relevance_of(paths_of(report.results), case.expected_files, case.top_k))
        },
        symbol_relevance: if case.expected_symbols.len() == 0 {
            None
        } else {
            Some(symbol_relevance_of(symbol_names(report.results), case.expected_symbols))
        },
        files_returned: report.results.len() as usize,
        elapsed_ms,
    }
}

fn report_paths(report: &SearchReport) -> (r: Vec<String>)
    ensures
        r.deep_view() == paths_of(report.results.deep_view()),
{
    let ghost want = paths_of(report.results.deep_view());
    let mut out: Vec<String> = Vec::new();
    let mut i: usize = 0;
    assert(out.deep_view() =~= want.take(0));
    while i < report.results.len()
        invariant
            i <= report.results@.len(),
            want == paths_of(report.results.deep_view()),
            out.deep_view() == want.take(i as int),
        decreases report.results@.len() - i,
    {
        let ghost before = out.deep_view();
        let p = report.results[i].path.clone();
        let ghost pv = p@;
        out.push(p);
        proof {
            assert(want[i as int] == pv);
            assert(out.deep_view() =~= before.push(pv));
            assert(want.take(i + 1) =~= want.take(i as int).push(want[i as int]));
        }
        i += 1;
    }
    assert(want.take(i as int) =~= want);
    out
}

fn report_symbols(report: &SearchReport) -> (r: Vec<String>)
    ensures
        r.deep_view() == symbol_names(report.results.deep_view()),
{
    let ghost fv = report.results.deep_view();
    let mut out: Vec<String> = Vec::new();
    let mut i: usize = 0;
    assert(out.deep_view() =~= symbol_names(fv.take(0)));
    while i < report.results.len()
        invariant
            i <= report.results@.len(),
            fv == report.results.deep_view(),
            out.deep_view() == symbol_names(fv.take(i as int)),
        decreases report.results@.len() - i,
    {
        let f = &report.results[i];
        let ghost start = out.deep_view();
        let ghost more = names_of(f.symbols.deep_view());
        proof {
            assert(fv.take(i + 1).drop_last() =~= fv.take(i as int));
            assert(fv.take(i + 1).last() == f.deep_view());
            assert(start + more.take(0) =~= start);
        }
        let mut k: usize = 0;
        while k < f.symbols.len()
            invariant
                k <= f.symbols@.len(),
                more == names_of(f.symbols.deep_view()),
                out.deep_view() == start + more.take(k as int),
            decreases f.symbols@.len() - k,
        {
            let ghost before = out.deep_view();
            let n = f.symbols[k].name.clone();
            let ghost nv = n@;
            out.push(n);
            proof {
                assert(more[k as int] == nv);
                assert(out.deep_view() =~= before.push(nv));
                assert(start + more.take(k + 1) =~= (start + more.take(k as int)).push(
                    more[k as int],
                ));
            }
            k += 1;
        }
        assert(more.take(k as int) =~= more);
        i += 1;
    }
    assert(fv.take(i as int) =~= fv);
    out
}

/// Grades the report of a case, given the report as JSON and the contents of
/// those of its files that could be read.
pub fn grade_case(
    case: &EvalCase,
    report: &SearchReport,
    json: &str,
    contents: &Vec<Content>,
    elapsed_ms: u64,
) -> (r: CaseResult)
    requires
        tokens_in(contents.deep_view()) <= usize::MAX,
    ensures
        r.deep_view() == graded(
            case.deep_view(),
            report.deep_view(),
            json@,
            contents.deep_view(),
            elapsed_ms,
        ),
{
    proof {
        assert(case.expected_files.deep_view().len() == case.expected_files@.len());
        assert(case.expected_symbols.deep_view().len() == case.expected_symbols@.len());
        assert(report.results.deep_view().len() == report.results@.len());
    }
    let relevance_metrics = if case.expected_files.len() == 0 {
        None
    } else {
        let paths = report_paths(report);
        Some(relevance(&paths, &case.expected_files, case.top_k))
    };
    let symbol_metrics = if case.expected_symbols.len() == 0 {
        None
    } else {
        let names = report_symbols(report);
        Some(symbol_relevance(&names, &case.expected_symbols))
    };
    CaseResult {
        query: case.query.clone(),
        label: case.label.clone(),
        tags: case.tags.clone(),
        compression: compression(json, contents),
        relevance: relevance_metrics,
        symbol_relevance: symbol_metrics,
        files_returned: report.results.len(),
        elapsed_ms,
    }
}

/// Which value of a case is averaged.
#[derive(Clone, Copy, PartialEq, Eq, Structural, Debug)]
pub enum Measure {
    Compression,
    Precision,
    Recall,
    ReciprocalRank,
    SymbolRecall,
    SymbolReciprocalRank,
}

/// A value of a case, where it has one.
pub open spec fn measured(c: CaseResultView, m: Measure) -> Option<Ratio> {
    match m {
        Measure::Compression => Some(c.compression.ratio),
        Measure::Precision => match c.relevance {
            Some(r) => Some(r.precision_at_k),
            None => None,
        },
        Measure::Recall => match c.relevance {
            Some(r) => Some(r.recall_at_k),
            None => None,
        },
        Measure::ReciprocalRank => match c.relevance {
            Some(r) => Some(r.reciprocal_rank),
            None => None,
        },
        Measure::SymbolRecall => match c.symbol_relevance {
            Some(r) => Some(r.recall),
            None => None,
        },
        Measure::SymbolReciprocalRank => match c.symbol_relevance {
            Some(r) => Some(r.reciprocal_rank),
            None => None,
        },
    }
}

/// The values of the cases that have one, in order.
pub open spec fn measures(cases: Seq<CaseResultView>, m: Measure) -> Seq<Ratio>
    decreases cases.len(),
{
    if cases.len() == 0 {
        Seq::<Ratio>::empty()
    } else {
        match measured(cases.last(), m) {
            Some(v) => measures(cases.drop_last(), m).push(v),
            None => measures(cases.drop_last(), m),
        }
    }
}

fn measure(c: &CaseResult, m: Measure) -> (r: Option<Ratio>)
    ensures
        r == measured(c.deep_view(), m),
{
    match m {
        Measure::Compression => Some(c.compression.ratio),
        Measure::Precision => match &c.relevance {
            Some(r) => Some(r.precision_at_k),
            None => None,
        },
        Measure::Recall => match &c.relevance {
            Some(r) => Some(r.recall_at_k),
            None => None,
        },
        Measure::ReciprocalRank => match &c.relevance {
            Some(r) => Some(r.reciprocal_rank),
            None => None,
        },
        Measure::SymbolRecall => match &c.symbol_relevance {
            Some(r) => Some(r.recall),
            None => None,
        },
        Measure::SymbolReciprocalRank => match &c.symbol_relevance {
            Some(r) => Some(r.reciprocal_rank),
            None => None,
        },
    }
}

/// The cases at these positions.
pub open spec fn cases_at(cases: Seq<CaseResultView>, at: Seq<int>) -> Seq<CaseResultView> {
    at.map_values(|i: int| cases[i])
}

fn collect(cases: &Vec<CaseResult>, at: &Vec<usize>, m: Measure) -> (r: Vec<Ratio>)
    requires
        forall|k: int| 0 <= k < at@.len() ==> #[trigger] at@[k] < cases@.len(),
    ensures
        r.deep_view() == measures(cases_at(cases.deep_view(), places(at@)), m),
{
    let ghost cv = cases.deep_view();
    let ghost group = cases_at(cv, places(at@));
    let mut out: Vec<Ratio> = Vec::new();
    let mut k: usize = 0;
    assert(out@ =~= measures(group.take(0), m));
    while k < at.len()
        invariant
            k <= at@.len(),
            cv == cases.deep_view(),
            group == cases_at(cv, places(at@)),
            forall|j: int| 0 <= j < at@.len() ==> #[trigger] at@[j] < cases@.len(),
            out@ == measures(group.take(k as int), m),
        decreases at@.len() - k,
    {
        let c = &cases[at[k]];
        proof {
            assert(group.take(k + 1).drop_last() =~= group.take(k as int));
            assert(places(at@)[k as int] == at@[k as int]);
            assert(group.take(k + 1).last() == c.deep_view());
        }
        if let Some(v) = measure(c, m) {
            out.push(v);
        }
        k += 1;
    }
    assert(group.take(k as int) =~= group);
    assert(out.deep_view() =~= out@);
    out
}

/// The values that a suite's averages are made of.
pub open spec fn summary_of(cases: Seq<CaseResultView>) -> SummaryInputsView {
    SummaryInputsView {
        total_cases: cases.len() as usize,
        compressions: measures(cases, Measure::Compression),
        precisions: measures(cases, Measure::Precision),
        recalls: measures(cases, Measure::Recall),
        reciprocal_ranks: measures(cases, Measure::ReciprocalRank),
        symbol_recalls: measures(cases, Measure::SymbolRecall),
        symbol_reciprocal_ranks: measures(cases, Measure::SymbolReciprocalRank),
    }
}

/// Collects the values that a suite's averages are made of.
pub fn compute_summary(cases: &Vec<CaseResult>) -> (r: SummaryInputs)
    ensures
        r.deep_view() == summary_of(cases.deep_view()),
{
    let ghost cv = cases.deep_view();
    let mut at: Vec<usize> = Vec::new();
    let mut i: usize = 0;
    while i < cases.len()
        invariant
            i <= cases@.len(),
            at@.len() == i,
            forall|k: int| 0 <= k < i ==> #[trigger] at@[k] == k,
        decreases cases@.len() - i,
    {
        at.push(i);
        i += 1;
    }
    assert(cases_at(cv, places(at@)) =~= cv);
    SummaryInputs {
        total_cases: cases.len(),
        compressions: collect(cases, &at, Measure::Compression),
        precisions: collect(cases, &at, Measure::Precision),
        recalls: collect(cases, &at, Measure::Recall),
        reciprocal_ranks: collect(cases, &at, Measure::ReciprocalRank),
        symbol_recalls: collect(cases, &at, Measure::SymbolRecall),
        symbol_reciprocal_ranks: collect(cases, &at, Measure::SymbolReciprocalRank),
    }
}

/// The position `i` once for each time the tag is in the list.
pub open spec fn repeats(tags: Seq<Seq<char>>, tag: Seq<char>, i: int) -> Seq<int>
    decreases tags.len(),
{
    if tags.len() == 0 {
        Seq::<int>::empty()
    } else if tags.last() == tag {
        repeats(tags.drop_last(), tag, i).push(i)
    } else {
        repeats(tags.drop_last(), tag, i)
    }
}

/// The positions of the cases that carry a tag, among the first `n`.
pub open spec fn tagged(cases: Seq<CaseResultView>, tag: Seq<char>, n: int) -> Seq<int>
    decreases n,
{
    if n <= 0 {
        Seq::<int>::empty()
    } else {
        tagged(cases, tag, n - 1) + repeats(cases[n - 1].tags, tag, n - 1)
    }
}

/// Whether some case carries the tag.
pub open spec fn is_tag(cases: Seq<CaseResultView>, tag: Seq<char>) -> bool {
    exists|i: int| 0 <= i < cases.len() && (#[trigger] cases[i]).tags.contains(tag)
}

/// The values that a tag's averages are made of.
pub open spec fn tag_inputs_of(cases: Seq<CaseResultView>, tag: Seq<char>) -> TagInputsView {
    let group = cases_at(cases, tagged(cases, tag, cases.len() as int));
    TagInputsView {
        tag,
        cases: group.len() as usize,
        precisions: measures(group, Measure::Precision),
        recalls: measures(group, Measure::Recall),
        reciprocal_ranks: measures(group, Measure::ReciprocalRank),
    }
}

fn find_tagged(cases: &Vec<CaseResult>, tag: &str) -> (r: Vec<usize>)
    ensures
        places(r@) == tagged(cases.deep_view(), tag@, cases@.len() as int),
        forall|k: int| 0 <= k < r@.len() ==> #[trigger] r@[k] < cases@.len(),
{
    let ghost cv = cases.deep_view();
    let mut out: Vec<usize> = Vec::new();
    let mut i: usize = 0;
    assert(places(out@) =~= tagged(cv, tag@, 0));
    while i < cases.len()
        invariant
            i <= cases@.len(),
            cv == cases.deep_view(),
            places(out@) == tagged(cv, tag@, i as int),
            forall|k: int| 0 <= k < out@.len() ==> #[trigger] out@[k] < cases@.len(),
        decreases cases@.len() - i,
    {
        let c = &cases[i];
        let ghost tv = c.tags.deep_view();
        let ghost start = places(out@);
        assert(cv[i as int] == c.deep_view());
        let mut k: usize = 0;
        assert(start + repeats(tv.take(0), tag@, i as int) =~= start);
        while k < c.tags.len()
            invariant
                k <= c.tags@.len(),
                i < cases@.len(),
                tv == c.tags.deep_view(),
                places(out@) == start + repeats(tv.take(k as int), tag@, i as int),
                forall|j: int| 0 <= j < out@.len() ==> #[trigger] out@[j] < cases@.len(),
            decreases c.tags@.len() - k,
        {
            let ghost before = places(out@);
            proof {
                assert(tv.take(k + 1).drop_last() =~= tv.take(k as int));
                assert(tv.take(k + 1).last() == c.tags@[k as int]@);
            }
            if same(c.tags[k].as_str(), tag) {
                out.push(i);
                assert(places(out@) =~= before.push(i as int));
                assert(places(out@) =~= start + repeats(tv.take(k + 1), tag@, i as int));
            }
            k += 1;
        }
        assert(tv.take(k as int) =~= tv);
        i += 1;
    }
    out
}

/// The tags of the first `n` cases, as the keys of a map.
pub open spec fn tag_set(cases: Seq<CaseResultView>, n: int, tag: Seq<char>) -> bool {
    exists|i: int| 0 <= i < n && (#[trigger] cases[i]).tags.contains(tag)
}

/// Collects the values that each tag's averages are made of, in ascending order
/// of the tags. A case contributes to each of its tags.
pub fn compute_by_tag(cases: &Vec<CaseResult>) -> (r: Vec<TagInputs>)
    ensures
        forall|i: int|
            0 <= i < r@.len() ==> (#[trigger] r@[i]).deep_view() == tag_inputs_of(
                cases.deep_view(),
                r@[i].tag@,
            ),
        forall|i: int, j: int|
            0 <= i < j < r@.len() ==> precedes((#[trigger] r@[i]).tag@, (#[trigger] r@[j]).tag@),
        forall|t: Seq<char>|
            is_tag(cases.deep_view(), t) <==> exists|i: int|
                0 <= i < r@.len() && (#[trigger] r@[i]).tag@ == t,
{
    let ghost cv = cases.deep_view();
    let mut tags = TextMap::new();
    let mut i: usize = 0;
    while i < cases.len()
        invariant
            i <= cases@.len(),
            cv == cases.deep_view(),
            forall|t: Seq<char>| #[trigger] tags@.contains_key(t) <==> tag_set(cv, i as int, t),
        decreases cases@.len() - i,
    {
        let c = &cases[i];
        let ghost tv = c.tags.deep_view();
        let ghost base = tags@;
        assert(cv[i as int] == c.deep_view());
        let mut k: usize = 0;
        while k < c.tags.len()
            invariant
                k <= c.tags@.len(),
                tv == c.tags.deep_view(),
                forall|t: Seq<char>|
                    #[trigger] tags@.contains_key(t) <==> base.contains_key(t) || tv.take(
                        k as int,
                    ).contains(t),
            decreases c.tags@.len() - k,
        {
            let ghost before = tags@;
            tags.insert(c.tags[k].as_str(), "");
            proof {
                let x = c.tags@[k as int]@;
                assert(tv[k as int] == x);
                assert(tv.take(k + 1) =~= tv.take(k as int).push(x));
                assert forall|t: Seq<char>| #[trigger] tags@.contains_key(t) <==> base.contains_key(
                    t,
                ) || tv.take(k + 1).contains(t) by {
                    if tv.take(k as int).contains(t) {
                        let m = choose|m: int| 0 <= m < k && tv.take(k as int)[m] == t;
                        assert(tv.take(k + 1)[m] == t);
                    }
                    if t == x {
                        assert(tv.take(k + 1)[k as int] == t);
                    }
                    if tv.take(k + 1).contains(t) && t != x {
                        let next = tv.take(k + 1);
                        let m = choose|m: int| 0 <= m < next.len() && next[m] == t;
                        assert(tv.take(k as int)[m] == t);
                    }
                }
            }
            k += 1;
        }
        proof {
            assert(tv.take(k as int) =~= tv);
            assert forall|t: Seq<char>| #[trigger] tags@.contains_key(t) <==> tag_set(
                cv,
                i + 1,
                t,
            ) by {
                if base.contains_key(t) {
                    let m = choose|m: int| 0 <= m < i && (#[trigger] cv[m]).tags.contains(t);
                    assert(cv[m].tags.contains(t));
                }
                if tv.contains(t) {
                    assert(cv[i as int].tags.contains(t));
                }
                if tag_set(cv, i + 1, t) {
                    let m = choose|m: int| 0 <= m < i + 1 && (#[trigger] cv[m]).tags.contains(t);
                    if m < i {
                        assert(tag_set(cv, i as int, t));
                    }
                }
            }
        }
        i += 1;
    }
    let n: usize = tags.len();
    let ghost ks = tags.keys();
    let mut out: Vec<TagInputs> = Vec::new();
    let mut k: usize = 0;
    while k < n
        invariant
            k <= n,
            n == ks.len(),
            ks == tags.keys(),
            cv == cases.deep_view(),
            out@.len() == k,
            forall|j: int| 0 <= j < k ==> (#[trigger] out@[j]).tag@ == ks[j],
            forall|j: int|
                0 <= j < k ==> (#[trigger] out@[j]).deep_view() == tag_inputs_of(cv, out@[j].tag@),
        decreases n - k,
    {
        let tag = tags.key_at(k);
        let at = find_tagged(cases, tag);
        assert(cases_at(cv, places(at@)).len() == at@.len());
        let t = TagInputs {
            tag: tag.to_string(),
            cases: at.len(),
            precisions: collect(cases, &at, Measure::Precision),
            recalls: collect(cases, &at, Measure::Recall),
            reciprocal_ranks: collect(cases, &at, Measure::ReciprocalRank),
        };
        assert(t.deep_view() == tag_inputs_of(cv, tag@));
        out.push(t);
        k += 1;
    }
    proof {
        assert forall|t: Seq<char>|
            is_tag(cv, t) <==> exists|i: int|
                0 <= i < out@.len() && (#[trigger] out@[i]).tag@ == t by {
            assert(is_tag(cv, t) <==> tag_set(cv, cv.len() as int, t));
            assert(tags@.contains_key(t) <==> ks.contains(t));
            if ks.contains(t) {
                let j = choose|j: int| 0 <= j < ks.len() && ks[j] == t;
                assert(out@[j].tag@ == t);
            }
            if exists|i: int| 0 <= i < out@.len() && (#[trigger] out@[i]).tag@ == t {
                let j = choose|i: int| 0 <= i < out@.len() && (#[trigger] out@[i]).tag@ == t;
                assert(ks[j] == t);
            }
        }
        assert forall|i: int, j: int| 0 <= i < j < out@.len() implies precedes(
            (#[trigger] out@[i]).tag@,
            (#[trigger] out@[j]).tag@,
        ) by {
            assert(precedes(ks[i], ks[j]));
        }
    }
    out
}

/// The values in ascending order.
pub open spec fn sorted_values(values: Seq<Real>) -> Seq<Real> {
    ranked(values.map_values(|v: Real| -v.key())).map_values(|p: int| values[p])
}

/// The two values in the middle of a list, or the middle one twice: half their
/// sum is the median.
pub open spec fn middle_of(values: Seq<Real>) -> Option<(Real, Real)> {
    let s = sorted_values(values);
    let mid = (values.len() / 2) as int;
    if values.len() == 0 {
        None
    } else if values.len() % 2 == 0 {
        Some((s[mid - 1], s[mid]))
    } else {
        Some((s[mid], s[mid]))
    }
}

/// The two values in the middle of a list.
pub fn median_pair(values: &Vec<Real>) -> (r: Option<(Real, Real)>)
    ensures
        r == middle_of(values@),
{
    let n: usize = values.len();
    if n == 0 {
        return None;
    }
    let mut keys: Vec<i64> = Vec::new();
    let mut i: usize = 0;
    while i < n
        invariant
            i <= n,
            n == values@.len(),
            keys@.len() == i,
            forall|j: int| 0 <= j < i ==> #[trigger] keys@[j] == -values@[j].key(),
        decreases n - i,
    {
        keys.push(-values[i].order_key());
        i += 1;
    }
    assert(ints(keys@) =~= values@.map_values(|v: Real| -v.key()));
    let order = rank(&keys);
    let mid: usize = n / 2;
    let high = values[order[mid]];
    let low = if n % 2 == 0 {
        values[order[mid - 1]]
    } else {
        high
    };
    proof {
        let s = sorted_values(values@);
        assert(places(order@)[mid as int] == order@[mid as int]);
        assert(s[mid as int] == high);
        if n % 2 == 0 {
            assert(places(order@)[mid - 1] == order@[mid - 1]);
            assert(s[mid - 1] == low);
        }
    }
    Some((low, high))
}

/// The values that a median is taken from are those given, as many and in
/// ascending order.
pub proof fn law_values_are_sorted(values: Seq<Real>, i: int, j: int)
    requires
        0 <= i < j < values.len(),
    ensures
        sorted_values(values).len() == values.len(),
        values.contains(sorted_values(values)[i]),
        sorted_values(values).contains(values[i]),
        sorted_values(values)[i].key() <= sorted_values(values)[j].key(),
{
    let keys = values.map_values(|v: Real| -v.key());
    law_ranked(keys, keys.len() as int);
    let order = ranked(keys);
    assert(crate::rank::outranks(keys, order[i], order[j]));
    assert(order.contains(i));
    let k = choose|k: int| 0 <= k < order.len() && order[k] == i;
    assert(sorted_values(values)[k] == values[i]);
}

proof fn lemma_measures(cases: Seq<CaseResultView>, m: Measure, i: int)
    requires
        0 <= i < cases.len(),
        measured(cases[i], m) is Some,
    ensures
        measures(cases.take(i), m).len() < measures(cases, m).len(),
        measures(cases, m)[measures(cases.take(i), m).len() as int] == measured(cases[i], m)->0,
    decreases cases.len(),
{
    let head = cases.drop_last();
    if i < cases.len() - 1 {
        lemma_measures(head, m, i);
        assert(head.take(i) =~= cases.take(i));
    } else {
        assert(cases.take(i) =~= head);
    }
}

/// The cases before `i` that were graded for files, counted.
pub open spec fn graded_before(cases: Seq<CaseResultView>, i: int) -> int {
    cases.take(i).filter(|c: CaseResultView| c.relevance is Some).len() as int
}

/// The cases before `i` that were graded for symbols, counted.
pub open spec fn symbol_graded_before(cases: Seq<CaseResultView>, i: int) -> int {
    cases.take(i).filter(|c: CaseResultView| c.symbol_relevance is Some).len() as int
}

proof fn lemma_counted(cases: Seq<CaseResultView>)
    ensures
        measures(cases, Measure::Compression).len() == cases.len(),
        measures(cases, Measure::Precision).len() == cases.filter(
            |c: CaseResultView| c.relevance is Some,
        ).len(),
        measures(cases, Measure::Recall).len() == cases.filter(
            |c: CaseResultView| c.relevance is Some,
        ).len(),
        measures(cases, Measure::ReciprocalRank).len() == cases.filter(
            |c: CaseResultView| c.relevance is Some,
        ).len(),
        measures(cases, Measure::SymbolRecall).len() == cases.filter(
            |c: CaseResultView| c.symbol_relevance is Some,
        ).len(),
        measures(cases, Measure::SymbolReciprocalRank).len() == cases.filter(
            |c: CaseResultView| c.symbol_relevance is Some,
        ).len(),
    decreases cases.len(),
{
    reveal(Seq::filter);
    if cases.len() > 0 {
        lemma_counted(cases.drop_last());
    }
}

/// A summary takes every measure from its own place: of every case its compression,
/// and of every case that was graded its precision, recall and reciprocal rank, in
/// the order of the cases; likewise for symbols. There are no others.
pub proof fn law_summaries_take_every_measure(cases: Seq<CaseResultView>, i: int)
    requires
        0 <= i < cases.len(),
        cases.len() <= usize::MAX,
    ensures
        ({
            let s = summary_of(cases);
            let all = cases.len() as int;
            let k = graded_before(cases, i);
            let n = symbol_graded_before(cases, i);
            &&& s.total_cases == cases.len()
            &&& s.compressions.len() == cases.len()
            &&& s.compressions[i] == cases[i].compression.ratio
            &&& s.precisions.len() == graded_before(cases, all)
            &&& s.recalls.len() == graded_before(cases, all)
            &&& s.reciprocal_ranks.len() == graded_before(cases, all)
            &&& s.symbol_recalls.len() == symbol_graded_before(cases, all)
            &&& s.symbol_reciprocal_ranks.len() == symbol_graded_before(cases, all)
            &&& cases[i].relevance matches Some(r) ==> s.precisions[k] == r.precision_at_k
                && s.recalls[k] == r.recall_at_k && s.reciprocal_ranks[k] == r.reciprocal_rank
            &&& cases[i].symbol_relevance matches Some(r) ==> s.symbol_recalls[n] == r.recall
                && s.symbol_reciprocal_ranks[n] == r.reciprocal_rank
        }),
{
    assert(cases.take(cases.len() as int) =~= cases);
    lemma_counted(cases);
    lemma_counted(cases.take(i));
    lemma_measures(cases, Measure::Compression, i);
    if cases[i].relevance is Some {
        lemma_measures(cases, Measure::Precision, i);
        lemma_measures(cases, Measure::Recall, i);
        lemma_measures(cases, Measure::ReciprocalRank, i);
    }
    if cases[i].symbol_relevance is Some {
        lemma_measures(cases, Measure::SymbolRecall, i);
        lemma_measures(cases, Measure::SymbolReciprocalRank, i);
    }
}

/// A case is graded by what it expects and what the report says: files against the
/// reported paths within its own limit, symbols against the reported names, each
/// only where some are expected; and its output is held against its sources.
pub proof fn law_cases_are_graded(
    case: EvalCaseView,
    report: SearchReportView,
    json: Seq<char>,
    contents: Seq<ContentView>,
    elapsed_ms: u64,
)
    requires
        report.results.len() <= usize::MAX,
        tokens_in(contents) <= usize::MAX,
        json.len() <= usize::MAX,
    ensures
        ({
            let c = graded(case, report, json, contents, elapsed_ms);
            &&& c.query == case.query
            &&& c.label == case.label
            &&& c.tags == case.tags
            &&& c.elapsed_ms == elapsed_ms
            &&& c.files_returned == report.results.len()
            &&& c.compression.output_tokens == tokens_of(json)
            &&& tokens_in(contents) >= 0 ==> c.compression.source_tokens == tokens_in(contents)
            &&& tokens_in(contents) > 0 ==> c.compression.ratio.num == tokens_of(json)
                && c.compression.ratio.den == tokens_in(contents)
            &&& c.relevance is Some <==> case.expected_files.len() > 0
            &&& c.symbol_relevance is Some <==> case.expected_symbols.len() > 0
            &&& c.relevance matches Some(r) ==> r.k == case.top_k && r.found.len()
                + r.missed.len() == case.expected_files.len()
            &&& c.symbol_relevance matches Some(r) ==> r.found.len() + r.missed.len()
                == case.expected_symbols.len()
        }),
{
    let paths = paths_of(report.results);
    law_found_and_missed(
        case.expected_files,
        crate::eval::metrics::firsts(paths, case.top_k as int),
        Seq::<char>::empty(),
    );
    law_found_and_missed(
        case.expected_symbols,
        symbol_names(report.results),
        Seq::<char>::empty(),
    );
}

/// What is looked at are the reported paths in order, and the names of all reported
/// symbols.
pub proof fn law_reported_names(files: Seq<FileResultView>, x: Seq<char>)
    ensures
        paths_of(files).len() == files.len(),
        forall|k: int| 0 <= k < files.len() ==> #[trigger] paths_of(files)[k] == files[k].path,
        symbol_names(files).contains(x) <==> exists|k: int, j: int|
            0 <= k < files.len() && 0 <= j < files[k].symbols.len()
                && (#[trigger] files[k].symbols[j]).name == x,
    decreases files.len(),
{
    if files.len() > 0 {
        let head = files.drop_last();
        let n = head.len() as int;
        law_reported_names(head, x);
        let before = symbol_names(head);
        let more = names_of(files.last().symbols);
        let all = symbol_names(files);
        if all.contains(x) {
            let m = choose|m: int| 0 <= m < all.len() && all[m] == x;
            if m < before.len() {
                assert(before[m] == x);
                let (k, j) = choose|k: int, j: int|
                    0 <= k < head.len() && 0 <= j < head[k].symbols.len()
                        && (#[trigger] head[k].symbols[j]).name == x;
                assert(files[k].symbols[j].name == x);
            } else {
                assert(files[n].symbols[m - before.len()].name == x);
            }
        }
        if exists|k: int, j: int|
            0 <= k < files.len() && 0 <= j < files[k].symbols.len()
                && (#[trigger] files[k].symbols[j]).name == x {
            let (k, j) = choose|k: int, j: int|
                0 <= k < files.len() && 0 <= j < files[k].symbols.len()
                    && (#[trigger] files[k].symbols[j]).name == x;
            if k < n {
                assert(head[k].symbols[j].name == x);
                let m = choose|m: int| 0 <= m < before.len() && before[m] == x;
                assert(all[m] == x);
            } else {
                assert(more[j] == x);
                assert(all[before.len() + j] == x);
            }
        }
    }
}

/// The median is the mean of the two values in the middle of the sorted ones, which
/// are the same where their number is odd.
pub proof fn law_middle_values(values: Seq<Real>)
    requires
        values.len() > 0,
    ensures
        ({
            let s = sorted_values(values);
            let n = values.len() as int;
            middle_of(values) == Some((s[(n - 1) / 2], s[n / 2]))
        }),
{
    let n = values.len() as int;
    if n % 2 == 0 {
        assert((n - 1) / 2 == n / 2 - 1);
    } else {
        assert((n - 1) / 2 == n / 2);
    }
}

proof fn lemma_repeats(tags: Seq<Seq<char>>, tag: Seq<char>, i: int)
    ensures
        forall|k: int|
            0 <= k < repeats(tags, tag, i).len() ==> #[trigger] repeats(tags, tag, i)[k] == i,
        repeats(tags, tag, i).len() > 0 <==> tags.contains(tag),
        tags.no_duplicates() ==> repeats(tags, tag, i).len() <= 1,
    decreases tags.len(),
{
    if tags.len() > 0 {
        let head = tags.drop_last();
        lemma_repeats(head, tag, i);
        assert(tags[tags.len() - 1] == tags.last());
        if head.contains(tag) {
            let k = choose|k: int| 0 <= k < head.len() && head[k] == tag;
            assert(tags[k] == tag);
        }
        if tags.contains(tag) && tags.last() != tag {
            let k = choose|k: int| 0 <= k < tags.len() && tags[k] == tag;
            assert(head[k] == tag);
        }
    }
}

/// The cases of a tag are those that carry it, in order, each once where no case
/// repeats a tag.
pub proof fn law_cases_of_a_tag(cases: Seq<CaseResultView>, tag: Seq<char>, n: int)
    requires
        0 <= n <= cases.len(),
    ensures
        forall|i: int| #[trigger]
            tagged(cases, tag, n).contains(i) <==> 0 <= i < n && cases[i].tags.contains(tag),
        forall|j: int, k: int|
            0 <= j < k < tagged(cases, tag, n).len() ==> #[trigger] tagged(cases, tag, n)[j]
                <= #[trigger] tagged(cases, tag, n)[k],
        (forall|i: int| 0 <= i < n ==> (#[trigger] cases[i]).tags.no_duplicates()) ==> tagged(
            cases,
            tag,
            n,
        ).no_duplicates(),
    decreases n,
{
    if n > 0 {
        law_cases_of_a_tag(cases, tag, n - 1);
        let head = tagged(cases, tag, n - 1);
        let more = repeats(cases[n - 1].tags, tag, n - 1);
        let all = tagged(cases, tag, n);
        lemma_repeats(cases[n - 1].tags, tag, n - 1);
        assert(forall|k: int| 0 <= k < head.len() ==> head.contains(#[trigger] head[k]));
        assert forall|i: int| #[trigger] all.contains(i) <==> 0 <= i < n && cases[i].tags.contains(
            tag,
        ) by {
            assert(head.contains(i) <==> 0 <= i < n - 1 && cases[i].tags.contains(tag));
            if all.contains(i) {
                let k = choose|k: int| 0 <= k < all.len() && all[k] == i;
                if k < head.len() {
                    assert(head[k] == i);
                } else {
                    assert(more[k - head.len()] == i);
                }
            }
            if head.contains(i) {
                let k = choose|k: int| 0 <= k < head.len() && head[k] == i;
                assert(all[k] == i);
            }
            if i == n - 1 && cases[i].tags.contains(tag) {
                assert(more[0] == i);
                assert(all[head.len() as int] == i);
            }
        }
        assert forall|j: int, k: int| 0 <= j < k < all.len() implies #[trigger] all[j]
            <= #[trigger] all[k] by {
            if j < head.len() {
                assert(all[j] == head[j]);
                assert(head.contains(head[j]));
                if k < head.len() {
                    assert(all[k] == head[k]);
                } else {
                    assert(all[k] == more[k - head.len()]);
                }
            } else {
                assert(all[j] == more[j - head.len()]);
                assert(all[k] == more[k - head.len()]);
            }
        }
        if forall|i: int| 0 <= i < n ==> (#[trigger] cases[i]).tags.no_duplicates() {
            assert(cases[n - 1].tags.no_duplicates());
            assert forall|j: int, k: int|
                0 <= j < all.len() && 0 <= k < all.len() && j != k implies all[j] != all[k] by {
                if j < head.len() {
                    assert(head.contains(head[j]));
                }
                if k < head.len() {
                    assert(head.contains(head[k]));
                }
            }
        }
    }
}

/// A tag's summary takes the measures of the cases that carry it.
pub proof fn law_tags_take_their_cases(cases: Seq<CaseResultView>, tag: Seq<char>)
    requires
        tagged(cases, tag, cases.len() as int).len() <= usize::MAX,
    ensures
        ({
            let t = tag_inputs_of(cases, tag);
            let at = tagged(cases, tag, cases.len() as int);
            let group = Seq::new(at.len(), |k: int| cases[at[k]]);
            &&& t.tag == tag
            &&& t.cases == at.len()
            &&& t.precisions == summary_of(group).precisions
            &&& t.recalls == summary_of(group).recalls
            &&& t.reciprocal_ranks == summary_of(group).reciprocal_ranks
        }),
{
    let at = tagged(cases, tag, cases.len() as int);
    assert(cases_at(cases, at) =~= Seq::new(at.len(), |k: int| cases[at[k]]));
}

/// A case searches for its own query, for as many files as it says, with symbols,
/// and everywhere.
pub proof fn law_cases_search_for_their_query(case: EvalCaseView)
    ensures
        ({
            let p = params_of(case);
            &&& p.query == case.query
            &&& p.top_k == case.top_k
            &&& !p.no_symbols
            &&& p.symbols_per_file > 0
            &&& p.scope.len() == 0
            &&& p.filters.len() == 0
        }),
{
}

} // verus!
