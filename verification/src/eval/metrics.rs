//! How good a result is: found and missed, ranks, and how much smaller it is
//! than what it stands for. Fractions are kept as pairs of counts.
use vstd::prelude::*;

use crate::text::has_text;

verus! {

/// A fraction of two counts. With a zero denominator it counts as zero.
#[derive(Clone, Copy, PartialEq, Eq, Structural, Debug)]
pub struct Ratio {
    pub num: usize,
    pub den: usize,
}

impl DeepView for Ratio {
    type V = Ratio;

    open spec fn deep_view(&self) -> Ratio {
        *self
    }
}

/// The fraction that is zero.
pub open spec fn nothing() -> Ratio {
    Ratio { num: 0, den: 0 }
}

/// The fraction `num / den`, zero where there is nothing to divide by.
pub open spec fn ratio_of(num: int, den: int) -> Ratio {
    if den == 0 {
        nothing()
    } else {
        Ratio { num: num as usize, den: den as usize }
    }
}

/// One over a rank, or zero where there is none.
pub open spec fn reciprocal(rank: Option<usize>) -> Ratio {
    match rank {
        Some(k) => Ratio { num: 1, den: k },
        None => nothing(),
    }
}

/// How much smaller a report is than the files it stands for.
#[derive(Debug)]
pub struct CompressionMetrics {
    pub output_tokens: usize,
    pub source_tokens: usize,
    /// Output over source.
    pub ratio: Ratio,
}

/// What a [`CompressionMetrics`] holds.
#[verifier::ext_equal]
pub struct CompressionMetricsView {
    pub output_tokens: usize,
    pub source_tokens: usize,
    pub ratio: Ratio,
}

impl DeepView for CompressionMetrics {
    type V = CompressionMetricsView;

    open spec fn deep_view(&self) -> CompressionMetricsView {
        CompressionMetricsView {
            output_tokens: self.output_tokens,
            source_tokens: self.source_tokens,
            ratio: self.ratio,
        }
    }
}

impl Clone for CompressionMetrics {
    fn clone(&self) -> (r: Self)
        ensures
            r.deep_view() == self.deep_view(),
    {
        CompressionMetrics {
            output_tokens: self.output_tokens,
            source_tokens: self.source_tokens,
            ratio: self.ratio,
        }
    }
}

/// How the returned files compare with the expected ones.
#[derive(Debug)]
pub struct RelevanceMetrics {
    /// Expected files found, over files returned.
    pub precision_at_k: Ratio,
    /// Expected files found, over files expected.
    pub recall_at_k: Ratio,
    /// One over the rank of the first expected file.
    pub reciprocal_rank: Ratio,
    /// The rank of the first expected file, counted from one.
    pub first_hit_rank: Option<usize>,
    pub found: Vec<String>,
    pub missed: Vec<String>,
    pub k: usize,
}

/// What a [`RelevanceMetrics`] holds.
#[verifier::ext_equal]
pub struct RelevanceMetricsView {
    pub precision_at_k: Ratio,
    pub recall_at_k: Ratio,
    pub reciprocal_rank: Ratio,
    pub first_hit_rank: Option<usize>,
    pub found: Seq<Seq<char>>,
    pub missed: Seq<Seq<char>>,
    pub k: usize,
}

impl DeepView for RelevanceMetrics {
    type V = RelevanceMetricsView;

    open spec fn deep_view(&self) -> RelevanceMetricsView {
        RelevanceMetricsView {
            precision_at_k: self.precision_at_k,
            recall_at_k: self.recall_at_k,
            reciprocal_rank: self.reciprocal_rank,
            first_hit_rank: self.first_hit_rank.deep_view(),
            found: self.found.deep_view(),
            missed: self.missed.deep_view(),
            k: self.k,
        }
    }
}

impl Clone for RelevanceMetrics {
    fn clone(&self) -> (r: Self)
        ensures
            r.deep_view() == self.deep_view(),
    {
        RelevanceMetrics {
            precision_at_k: self.precision_at_k,
            recall_at_k: self.recall_at_k,
            reciprocal_rank: self.reciprocal_rank,
            first_hit_rank: self.first_hit_rank,
            found: self.found.clone(),
            missed: self.missed.clone(),
            k: self.k,
        }
    }
}

/// How the returned symbols compare with the expected ones.
#[derive(Debug)]
pub struct SymbolRelevanceMetrics {
    /// Expected symbols found, over symbols expected.
    pub recall: Ratio,
    /// One over the rank of the first expected symbol.
    pub reciprocal_rank: Ratio,
    /// The rank of the first expected symbol, counted from one.
    pub first_hit_rank: Option<usize>,
    pub found: Vec<String>,
    pub missed: Vec<String>,
}

/// What a [`SymbolRelevanceMetrics`] holds.
#[verifier::ext_equal]
pub struct SymbolRelevanceMetricsView {
    pub recall: Ratio,
    pub reciprocal_rank: Ratio,
    pub first_hit_rank: Option<usize>,
    pub found: Seq<Seq<char>>,
    pub missed: Seq<Seq<char>>,
}

impl DeepView for SymbolRelevanceMetrics {
    type V = SymbolRelevanceMetricsView;

    open spec fn deep_view(&self) -> SymbolRelevanceMetricsView {
        SymbolRelevanceMetricsView {
            recall: self.recall,
            reciprocal_rank: self.reciprocal_rank,
            first_hit_rank: self.first_hit_rank.deep_view(),
            found: self.found.deep_view(),
            missed: self.missed.deep_view(),
        }
    }
}

impl Clone for SymbolRelevanceMetrics {
    fn clone(&self) -> (r: Self)
        ensures
            r.deep_view() == self.deep_view(),
    {
        SymbolRelevanceMetrics {
            recall: self.recall,
            reciprocal_rank: self.reciprocal_rank,
            first_hit_rank: self.first_hit_rank,
            found: self.found.clone(),
            missed: self.missed.clone(),
        }
    }
}

/// A file's path and its content.
#[derive(Debug)]
pub struct Content {
    pub path: String,
    pub content: String,
}

/// What a [`Content`] holds.
#[verifier::ext_equal]
pub struct ContentView {
    pub path: Seq<char>,
    pub content: Seq<char>,
}

impl DeepView for Content {
    type V = ContentView;

    open spec fn deep_view(&self) -> ContentView {
        ContentView {
            path: self.path@,
            content: self.content@,
        }
    }
}

impl Clone for Content {
    fn clone(&self) -> (r: Self)
        ensures
            r.deep_view() == self.deep_view(),
    {
        Content {
            path: self.path.clone(),
            content: self.content.clone(),
        }
    }
}

/// The expected texts that are, or are not, among the returned ones.
pub open spec fn hits(
    expected: Seq<Seq<char>>,
    returned: Seq<Seq<char>>,
    found: bool,
) -> Seq<Seq<char>>
    decreases expected.len(),
{
    if expected.len() == 0 {
        Seq::<Seq<char>>::empty()
    } else {
        let head = hits(expected.drop_last(), returned, found);
        if returned.contains(expected.last()) == found {
            head.push(expected.last())
        } else {
            head
        }
    }
}

/// The first position from `i` on of a returned text that is expected.
pub open spec fn first_hit(
    returned: Seq<Seq<char>>,
    expected: Seq<Seq<char>>,
    i: int,
) -> Option<int>
    decreases returned.len() - i,
{
    if i < 0 || i >= returned.len() {
        None
    } else if expected.contains(returned[i]) {
        Some(i)
    } else {
        first_hit(returned, expected, i + 1)
    }
}

/// The rank of the first expected text, counted from one.
pub open spec fn hit_rank(returned: Seq<Seq<char>>, expected: Seq<Seq<char>>) -> Option<usize> {
    match first_hit(returned, expected, 0) {
        Some(i) => Some((i + 1) as usize),
        None => None,
    }
}

/// The first `k` of a list.
pub open spec fn firsts(list: Seq<Seq<char>>, k: int) -> Seq<Seq<char>> {
    if list.len() <= k {
        list
    } else {
        list.take(k)
    }
}

/// How returned files compare with expected ones.
pub open spec fn relevance_of(
    returned: Seq<Seq<char>>,
    expected: Seq<Seq<char>>,
    k: usize,
) -> RelevanceMetricsView {
    let top = firsts(returned, k as int);
    let found = hits(expected, top, true);
    RelevanceMetricsView {
        precision_at_k: ratio_of(found.len() as int, top.len() as int),
        recall_at_k: ratio_of(found.len() as int, expected.len() as int),
        reciprocal_rank: reciprocal(hit_rank(top, expected)),
        first_hit_rank: hit_rank(top, expected),
        found,
        missed: hits(expected, top, false),
        k,
    }
}

/// How returned symbols compare with expected ones.
pub open spec fn symbol_relevance_of(
    returned: Seq<Seq<char>>,
    expected: Seq<Seq<char>>,
) -> SymbolRelevanceMetricsView {
    let found = hits(expected, returned, true);
    SymbolRelevanceMetricsView {
        recall: ratio_of(found.len() as int, expected.len() as int),
        reciprocal_rank: reciprocal(hit_rank(returned, expected)),
        first_hit_rank: hit_rank(returned, expected),
        found,
        missed: hits(expected, returned, false),
    }
}

fn split_hits(expected: &Vec<String>, returned: &Vec<String>) -> (r: (Vec<String>, Vec<String>))
    ensures
        r.0.deep_view() == hits(expected.deep_view(), returned.deep_view(), true),
        r.1.deep_view() == hits(expected.deep_view(), returned.deep_view(), false),
        r.0@.len() + r.1@.len() == expected@.len(),
{
    let ghost ev = expected.deep_view();
    let ghost rv = returned.deep_view();
    let mut found: Vec<String> = Vec::new();
    let mut missed: Vec<String> = Vec::new();
    let mut i: usize = 0;
    assert(found.deep_view() =~= hits(ev.take(0), rv, true));
    assert(missed.deep_view() =~= hits(ev.take(0), rv, false));
    while i < expected.len()
        invariant
            i <= expected@.len(),
            ev == expected.deep_view(),
            rv == returned.deep_view(),
            found.deep_view() == hits(ev.take(i as int), rv, true),
            missed.deep_view() == hits(ev.take(i as int), rv, false),
            found@.len() + missed@.len() == i,
        decreases expected@.len() - i,
    {
        let e = expected[i].as_str();
        proof {
            assert(ev.take(i + 1).drop_last() =~= ev.take(i as int));
            assert(ev.take(i + 1).last() == e@);
        }
        if has_text(returned, e) {
            let ghost before = found.deep_view();
            found.push(e.to_string());
            assert(found.deep_view() =~= before.push(e@));
        } else {
            let ghost before = missed.deep_view();
            missed.push(e.to_string());
            assert(missed.deep_view() =~= before.push(e@));
        }
        i += 1;
    }
    assert(ev.take(i as int) =~= ev);
    (found, missed)
}

fn rank_of_first(returned: &Vec<String>, expected: &Vec<String>) -> (r: Option<usize>)
    ensures
        r == hit_rank(returned.deep_view(), expected.deep_view()),
{
    let ghost rv = returned.deep_view();
    let ghost ev = expected.deep_view();
    let mut i: usize = 0;
    while i < returned.len()
        invariant
            i <= returned@.len(),
            rv == returned.deep_view(),
            ev == expected.deep_view(),
            first_hit(rv, ev, 0) == first_hit(rv, ev, i as int),
        decreases returned@.len() - i,
    {
        assert(rv[i as int] == returned@[i as int]@);
        if has_text(expected, returned[i].as_str()) {
            return Some(i + 1);
        }
        i += 1;
    }
    None
}

fn ratio(num: usize, den: usize) -> (r: Ratio)
    ensures
        r == ratio_of(num as int, den as int),
{
    if den == 0 {
        Ratio { num: 0, den: 0 }
    } else {
        Ratio { num, den }
    }
}

fn one_over(rank: Option<usize>) -> (r: Ratio)
    ensures
        r == reciprocal(rank),
{
    match rank {
        Some(k) => Ratio { num: 1, den: k },
        None => Ratio { num: 0, den: 0 },
    }
}

/// Grades expected symbol names against the returned ones in rank order.
pub fn symbol_relevance(returned_symbols: &Vec<String>, expected_symbols: &Vec<String>) -> (r:
    SymbolRelevanceMetrics)
    ensures
        r.deep_view() == symbol_relevance_of(
            returned_symbols.deep_view(),
            expected_symbols.deep_view(),
        ),
{
    let (found, missed) = split_hits(expected_symbols, returned_symbols);
    let first_hit_rank = rank_of_first(returned_symbols, expected_symbols);
    proof {
        assert(found.deep_view().len() == found@.len());
        assert(expected_symbols.deep_view().len() == expected_symbols@.len());
    }
    SymbolRelevanceMetrics {
        recall: ratio(found.len(), expected_symbols.len()),
        reciprocal_rank: one_over(first_hit_rank),
        first_hit_rank,
        found,
        missed,
    }
}

/// Grades expected paths against the first `k` returned ones.
pub fn relevance(returned_paths: &Vec<String>, expected_paths: &Vec<String>, k: usize) -> (r:
    RelevanceMetrics)
    ensures
        r.deep_view() == relevance_of(returned_paths.deep_view(), expected_paths.deep_view(), k),
{
    let ghost rv = returned_paths.deep_view();
    let mut top: Vec<String> = Vec::new();
    let n: usize = if returned_paths.len() <= k {
        returned_paths.len()
    } else {
        k
    };
    let mut i: usize = 0;
    assert(top.deep_view() =~= rv.take(0));
    while i < n
        invariant
            i <= n <= returned_paths@.len(),
            rv == returned_paths.deep_view(),
            top.deep_view() == rv.take(i as int),
        decreases n - i,
    {
        let ghost before = top.deep_view();
        top.push(returned_paths[i].clone());
        assert(top.deep_view() =~= before.push(rv[i as int]));
        assert(rv.take(i + 1) =~= rv.take(i as int).push(rv[i as int]));
        i += 1;
    }
    assert(top.deep_view() =~= firsts(rv, k as int));
    let (found, missed) = split_hits(expected_paths, &top);
    let first_hit_rank = rank_of_first(&top, expected_paths);
    proof {
        assert(found.deep_view().len() == found@.len());
        assert(top.deep_view().len() == top@.len());
        assert(expected_paths.deep_view().len() == expected_paths@.len());
    }
    RelevanceMetrics {
        precision_at_k: ratio(found.len(), top.len()),
        recall_at_k: ratio(found.len(), expected_paths.len()),
        reciprocal_rank: one_over(first_hit_rank),
        first_hit_rank,
        found,
        missed,
        k,
    }
}

/// A rough token count: a quarter of the characters, but at least one for a
/// text that is not empty.
pub open spec fn tokens_of(text: Seq<char>) -> int {
    if text.len() / 4 == 0 && text.len() > 0 {
        1
    } else {
        (text.len() / 4) as int
    }
}

/// A rough token count of a text.
pub fn approx_token_count(text: &str) -> (r: usize)
    ensures
        r == tokens_of(text@),
{
    let n: usize = text.unicode_len();
    let count: usize = n / 4;
    if count == 0 && n > 0 {
        1
    } else {
        count
    }
}

/// The token count of a list of files.
pub open spec fn tokens_in(list: Seq<ContentView>) -> int
    decreases list.len(),
{
    if list.len() == 0 {
        0
    } else {
        tokens_in(list.drop_last()) + tokens_of(list.last().content)
    }
}

proof fn lemma_tokens_grow(list: Seq<ContentView>, k: int)
    requires
        0 <= k <= list.len(),
    ensures
        0 <= tokens_in(list.take(k)) <= tokens_in(list),
    decreases list.len() - k, k,
{
    if k > 0 {
        assert(list.take(k).drop_last() =~= list.take(k - 1));
    }
    if k == list.len() {
        assert(list.take(k) =~= list);
        if k > 0 {
            lemma_tokens_nonneg(list);
        }
    } else {
        lemma_tokens_grow(list, k + 1);
        assert(list.take(k + 1).drop_last() =~= list.take(k));
        lemma_tokens_nonneg(list.take(k));
    }
}

proof fn lemma_tokens_nonneg(list: Seq<ContentView>)
    ensures
        0 <= tokens_in(list),
    decreases list.len(),
{
    if list.len() > 0 {
        lemma_tokens_nonneg(list.drop_last());
    }
}

/// Compares a rendered report with the files it stands for.
pub fn compression(json: &str, source_contents: &Vec<Content>) -> (r: CompressionMetrics)
    requires
        tokens_in(source_contents.deep_view()) <= usize::MAX,
    ensures
        r.deep_view() == (CompressionMetricsView {
            output_tokens: tokens_of(json@) as usize,
            source_tokens: tokens_in(source_contents.deep_view()) as usize,
            ratio: ratio_of(tokens_of(json@), tokens_in(source_contents.deep_view())),
        }),
{
    let ghost sv = source_contents.deep_view();
    let output_tokens: usize = approx_token_count(json);
    let mut source_tokens: usize = 0;
    let mut i: usize = 0;
    while i < source_contents.len()
        invariant
            i <= source_contents@.len(),
            sv == source_contents.deep_view(),
            tokens_in(sv) <= usize::MAX,
            source_tokens == tokens_in(sv.take(i as int)),
        decreases source_contents@.len() - i,
    {
        let t: usize = approx_token_count(source_contents[i].content.as_str());
        proof {
            assert(sv.take(i + 1).drop_last() =~= sv.take(i as int));
            assert(sv.take(i + 1).last() == source_contents@[i as int].deep_view());
            lemma_tokens_grow(sv, i + 1);
        }
        source_tokens = source_tokens + t;
        i += 1;
    }
    assert(sv.take(i as int) =~= sv);
    CompressionMetrics {
        output_tokens,
        source_tokens,
        ratio: ratio(output_tokens, source_tokens),
    }
}

// ---------------------------------------------------------------------------
// Laws
// ---------------------------------------------------------------------------

/// Every expected text is either found or missed, and found exactly when it is
/// among the returned ones.
pub proof fn law_found_and_missed(expected: Seq<Seq<char>>, returned: Seq<Seq<char>>, x: Seq<char>)
    ensures
        hits(expected, returned, true).len() + hits(expected, returned, false).len()
            == expected.len(),
        hits(
            expected,
            returned,
            true,
        ).contains(x) <==> expected.contains(x) && returned.contains(x),
        hits(expected, returned, false).contains(x) <==> expected.contains(x) && !returned.contains(
            x,
        ),
    decreases expected.len(),
{
    if expected.len() > 0 {
        let head = expected.drop_last();
        let last = expected.last();
        law_found_and_missed(head, returned, x);
        assert(expected.contains(x) <==> head.contains(x) || x == last) by {
            if head.contains(x) {
                let i = choose|i: int| 0 <= i < head.len() && head[i] == x;
                assert(expected[i] == x);
            }
            if x == last {
                assert(expected[expected.len() - 1] == x);
            }
            if expected.contains(x) && x != last {
                let i = choose|i: int| 0 <= i < expected.len() && expected[i] == x;
                assert(head[i] == x);
            }
        }
        lemma_push_contains(hits(head, returned, true), last, x);
        lemma_push_contains(hits(head, returned, false), last, x);
    }
}

proof fn lemma_push_contains(list: Seq<Seq<char>>, y: Seq<char>, x: Seq<char>)
    ensures
        list.push(y).contains(x) <==> list.contains(x) || x == y,
{
    if list.contains(x) {
        let i = choose|i: int| 0 <= i < list.len() && list[i] == x;
        assert(list.push(y)[i] == x);
    }
    if x == y {
        assert(list.push(y)[list.len() as int] == x);
    }
}

/// Recall and reciprocal rank are at most one; so is precision, where no file
/// is expected twice.
pub proof fn law_metrics_are_fractions(
    returned: Seq<Seq<char>>,
    expected: Seq<Seq<char>>,
    k: usize,
)
    requires
        expected.len() <= usize::MAX,
        returned.len() < usize::MAX,
    ensures
        ({
            let m = relevance_of(returned, expected, k);
            &&& m.recall_at_k.num <= m.recall_at_k.den
            &&& m.reciprocal_rank.num <= m.reciprocal_rank.den
            &&& expected.no_duplicates() ==> m.precision_at_k.num <= m.precision_at_k.den
        }),
        symbol_relevance_of(returned, expected).recall.num <= symbol_relevance_of(
            returned,
            expected,
        ).recall.den,
{
    let top = firsts(returned, k as int);
    let found = hits(expected, top, true);
    law_found_and_missed(expected, top, Seq::<char>::empty());
    law_found_and_missed(expected, returned, Seq::<char>::empty());
    law_first_hit(top, expected, 0);
    if expected.no_duplicates() {
        lemma_hits_distinct(expected, top);
        assert forall|x: Seq<char>| found.contains(x) implies top.contains(x) by {
            law_found_and_missed(expected, top, x);
        }
        lemma_distinct_in(found, top);
    }
}

proof fn lemma_hits_distinct(expected: Seq<Seq<char>>, returned: Seq<Seq<char>>)
    requires
        expected.no_duplicates(),
    ensures
        hits(expected, returned, true).no_duplicates(),
    decreases expected.len(),
{
    if expected.len() > 0 {
        let head = expected.drop_last();
        lemma_hits_distinct(head, returned);
        law_found_and_missed(head, returned, expected.last());
    }
}

proof fn lemma_distinct_in(a: Seq<Seq<char>>, b: Seq<Seq<char>>)
    requires
        a.no_duplicates(),
        forall|x: Seq<char>| a.contains(x) ==> b.contains(x),
    ensures
        a.len() <= b.len(),
{
    a.unique_seq_to_set();
    b.lemma_cardinality_of_set();
    assert(a.to_set().subset_of(b.to_set())) by {
        assert forall|x: Seq<char>| a.to_set().contains(x) implies b.to_set().contains(x) by {
            assert(a.contains(x));
        }
    }
    vstd::set_lib::lemma_len_subset(a.to_set(), b.to_set());
}

/// The rank is that of the first returned text that is expected: none before it
/// is, and there is none exactly when nothing expected was returned.
pub proof fn law_first_hit(returned: Seq<Seq<char>>, expected: Seq<Seq<char>>, i: int)
    requires
        0 <= i <= returned.len(),
    ensures
        match first_hit(returned, expected, i) {
            Some(k) => i <= k < returned.len() && expected.contains(returned[k]) && forall|j: int|
                i <= j < k ==> !expected.contains(#[trigger] returned[j]),
            None => forall|j: int|
                i <= j < returned.len() ==> !expected.contains(#[trigger] returned[j]),
        },
    decreases returned.len() - i,
{
    if i < returned.len() {
        law_first_hit(returned, expected, i + 1);
    }
}

/// What the found texts are counted by: those of the expected ones that are among
/// the returned.
pub proof fn law_found_are_counted(expected: Seq<Seq<char>>, returned: Seq<Seq<char>>)
    ensures
        hits(expected, returned, true) == expected.filter(
            |x: Seq<char>| returned.contains(x),
        ),
        hits(expected, returned, false) == expected.filter(
            |x: Seq<char>| !returned.contains(x),
        ),
    decreases expected.len(),
{
    reveal(Seq::filter);
    if expected.len() > 0 {
        law_found_are_counted(expected.drop_last(), returned);
    }
}

/// Precision is the found ones out of those looked at, recall the found ones out of
/// the expected ones, and the reciprocal rank one out of the place of the first
/// hit; only the first `k` returned texts are looked at.
pub proof fn law_relevance(returned: Seq<Seq<char>>, expected: Seq<Seq<char>>, k: usize)
    requires
        expected.len() <= usize::MAX,
        returned.len() < usize::MAX,
    ensures
        ({
            let m = relevance_of(returned, expected, k);
            let n = if returned.len() < k {
                returned.len() as int
            } else {
                k as int
            };
            let top = returned.take(n);
            let found = expected.filter(|x: Seq<char>| top.contains(x));
            &&& m.k == k
            &&& m.found == found
            &&& m.missed == expected.filter(|x: Seq<char>| !top.contains(x))
            &&& n > 0 ==> m.precision_at_k.num == found.len() && m.precision_at_k.den == n
            &&& n == 0 ==> m.precision_at_k.num == 0
            &&& expected.len() > 0 ==> m.recall_at_k.num == found.len() && m.recall_at_k.den
                == expected.len()
            &&& match m.first_hit_rank {
                Some(r) => {
                    &&& 1 <= r <= n
                    &&& expected.contains(returned[r - 1])
                    &&& forall|j: int| 0 <= j < r - 1 ==> !expected.contains(#[trigger] returned[j])
                    &&& m.reciprocal_rank.num == 1
                    &&& m.reciprocal_rank.den == r
                },
                None => {
                    &&& m.reciprocal_rank.num == 0
                    &&& forall|j: int| 0 <= j < n ==> !expected.contains(#[trigger] returned[j])
                },
            }
        }),
{
    let n = if returned.len() < k {
        returned.len() as int
    } else {
        k as int
    };
    let top = firsts(returned, k as int);
    assert(top =~= returned.take(n));
    law_found_are_counted(expected, top);
    law_found_and_missed(expected, top, Seq::<char>::empty());
    law_first_hit(top, expected, 0);
    assert(forall|j: int| 0 <= j < n ==> #[trigger] returned[j] == top[j]);
}

/// Of symbols every returned one is looked at: recall is the found ones out of the
/// expected ones, and the reciprocal rank one out of the place of the first hit.
pub proof fn law_symbol_relevance(returned: Seq<Seq<char>>, expected: Seq<Seq<char>>)
    requires
        expected.len() <= usize::MAX,
        returned.len() < usize::MAX,
    ensures
        ({
            let m = symbol_relevance_of(returned, expected);
            let found = expected.filter(|x: Seq<char>| returned.contains(x));
            &&& m.found == found
            &&& m.missed == expected.filter(|x: Seq<char>| !returned.contains(x))
            &&& expected.len() > 0 ==> m.recall.num == found.len() && m.recall.den
                == expected.len()
            &&& match m.first_hit_rank {
                Some(r) => {
                    &&& 1 <= r <= returned.len()
                    &&& expected.contains(returned[r - 1])
                    &&& forall|j: int| 0 <= j < r - 1 ==> !expected.contains(#[trigger] returned[j])
                    &&& m.reciprocal_rank.num == 1
                    &&& m.reciprocal_rank.den == r
                },
                None => {
                    &&& m.reciprocal_rank.num == 0
                    &&& forall|j: int|
                        0 <= j < returned.len() ==> !expected.contains(#[trigger] returned[j])
                },
            }
        }),
{
    law_found_are_counted(expected, returned);
    law_found_and_missed(expected, returned, Seq::<char>::empty());
    law_first_hit(returned, expected, 0);
}

/// A token is four characters: a text has as many as it has whole fours, but one at
/// least where it has any character.
pub proof fn law_tokens(text: Seq<char>)
    ensures
        text.len() == 0 ==> tokens_of(text) == 0,
        text.len() > 0 ==> tokens_of(text) >= 1,
        text.len() >= 4 ==> 4 * tokens_of(text) <= text.len() < 4 * (tokens_of(text) + 1),
        text.len() < 4 ==> tokens_of(text) <= 1,
{
}

/// The tokens of two lists together are those of the one and of the other.
pub proof fn law_tokens_add_up(a: Seq<ContentView>, b: Seq<ContentView>)
    ensures
        tokens_in(a + b) == tokens_in(a) + tokens_in(b),
        a.len() == 1 ==> tokens_in(a) == tokens_of(a[0].content),
    decreases b.len(),
{
    if b.len() == 0 {
        assert(a + b =~= a);
    } else {
        assert((a + b).drop_last() =~= a + b.drop_last());
        law_tokens_add_up(a, b.drop_last());
    }
    if a.len() == 1 {
        assert(tokens_in(a.drop_last()) == 0);
    }
}

} // verus!
