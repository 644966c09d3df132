//! A suite's results as a table for the terminal.
use owo_colors::OwoColorize;
use vstd::prelude::*;
use vstd::utf8::encode_utf8;

use crate::bytes::{is_boundary, text_between, Source};
use crate::number::Real;
use crate::store::Score;
use crate::text::{
    decimal, has_prefix, has_suffix, lemma_nine_parts, lemma_part_at_end, lemma_part_between,
    lemma_part_of_part, lemma_part_stays, occurs, occurs_at, show_u64, show_usize,
};

verus! {

/// How a piece of text stands out.
#[derive(Clone, Copy, PartialEq, Eq, Structural, Debug)]
pub enum Ink {
    Bold,
    Dimmed,
    Green,
    Yellow,
    Red,
}

/// The terminal's code for an ink.
pub open spec fn ink_code(ink: Ink) -> Seq<char> {
    match ink {
        Ink::Bold => "1"@,
        Ink::Dimmed => "2"@,
        Ink::Green => "32"@,
        Ink::Yellow => "33"@,
        Ink::Red => "31"@,
    }
}

/// `OwoColorize::style` with a `Style` of one effect, displayed: the text
/// between the escape sequence of the effect and the one that resets it.
#[verifier::external_body]
fn paint(text: &str, ink: Ink) -> (r: String)
    ensures
        r@ == "\u{1b}["@ + ink_code(ink) + "m"@ + text@ + "\u{1b}[0m"@,
{
    let style = match ink {
        Ink::Bold => owo_colors::Style::new().bold(),
        Ink::Dimmed => owo_colors::Style::new().dimmed(),
        Ink::Green => owo_colors::Style::new().green(),
        Ink::Yellow => owo_colors::Style::new().yellow(),
        Ink::Red => owo_colors::Style::new().red(),
    };
    text.style(style).to_string()
}

/// A score as shown, and its value.
#[derive(Debug)]
pub struct Figure {
    pub text: String,
    pub value: Score,
}

/// What a [`Figure`] holds.
#[verifier::ext_equal]
pub struct FigureView {
    pub text: Seq<char>,
    pub value: Score,
}

impl DeepView for Figure {
    type V = FigureView;

    open spec fn deep_view(&self) -> FigureView {
        FigureView {
            text: self.text@,
            value: self.value,
        }
    }
}

impl Clone for Figure {
    fn clone(&self) -> (r: Self)
        ensures
            r.deep_view() == self.deep_view(),
    {
        Figure {
            text: self.text.clone(),
            value: self.value,
        }
    }
}

/// A fraction as shown, and its value.
#[derive(Debug)]
pub struct Share {
    pub text: String,
    pub value: Real,
}

/// What a [`Share`] holds.
#[verifier::ext_equal]
pub struct ShareView {
    pub text: Seq<char>,
    pub value: Real,
}

impl DeepView for Share {
    type V = ShareView;

    open spec fn deep_view(&self) -> ShareView {
        ShareView {
            text: self.text@,
            value: self.value,
        }
    }
}

impl Clone for Share {
    fn clone(&self) -> (r: Self)
        ensures
            r.deep_view() == self.deep_view(),
    {
        Share {
            text: self.text.clone(),
            value: self.value,
        }
    }
}

/// A case's relevance as shown.
#[derive(Debug)]
pub struct RelevanceFigures {
    pub precision_at_k: Figure,
    pub recall_at_k: Figure,
    pub reciprocal_rank: Figure,
}

/// What a [`RelevanceFigures`] holds.
#[verifier::ext_equal]
pub struct RelevanceFiguresView {
    pub precision_at_k: FigureView,
    pub recall_at_k: FigureView,
    pub reciprocal_rank: FigureView,
}

impl DeepView for RelevanceFigures {
    type V = RelevanceFiguresView;

    open spec fn deep_view(&self) -> RelevanceFiguresView {
        RelevanceFiguresView {
            precision_at_k: self.precision_at_k.deep_view(),
            recall_at_k: self.recall_at_k.deep_view(),
            reciprocal_rank: self.reciprocal_rank.deep_view(),
        }
    }
}

impl Clone for RelevanceFigures {
    fn clone(&self) -> (r: Self)
        ensures
            r.deep_view() == self.deep_view(),
    {
        RelevanceFigures {
            precision_at_k: self.precision_at_k.clone(),
            recall_at_k: self.recall_at_k.clone(),
            reciprocal_rank: self.reciprocal_rank.clone(),
        }
    }
}

/// A case as shown.
#[derive(Debug)]
pub struct CaseFigures {
    pub query: String,
    pub label: Option<String>,
    pub relevance: Option<RelevanceFigures>,
    pub symbol_recall: Option<Figure>,
    pub compression: Share,
    pub files_returned: usize,
    pub elapsed_ms: u64,
}

/// What a [`CaseFigures`] holds.
#[verifier::ext_equal]
pub struct CaseFiguresView {
    pub query: Seq<char>,
    pub label: Option<Seq<char>>,
    pub relevance: Option<RelevanceFiguresView>,
    pub symbol_recall: Option<FigureView>,
    pub compression: ShareView,
    pub files_returned: usize,
    pub elapsed_ms: u64,
}

impl DeepView for CaseFigures {
    type V = CaseFiguresView;

    open spec fn deep_view(&self) -> CaseFiguresView {
        CaseFiguresView {
            query: self.query@,
            label: self.label.deep_view(),
            relevance: self.relevance.deep_view(),
            symbol_recall: self.symbol_recall.deep_view(),
            compression: self.compression.deep_view(),
            files_returned: self.files_returned,
            elapsed_ms: self.elapsed_ms,
        }
    }
}

impl Clone for CaseFigures {
    fn clone(&self) -> (r: Self)
        ensures
            r.deep_view() == self.deep_view(),
    {
        CaseFigures {
            query: self.query.clone(),
            label: self.label.clone(),
            relevance: self.relevance.clone(),
            symbol_recall: self.symbol_recall.clone(),
            compression: self.compression.clone(),
            files_returned: self.files_returned,
            elapsed_ms: self.elapsed_ms,
        }
    }
}

/// A suite's averages as shown.
#[derive(Debug)]
pub struct SummaryFigures {
    pub total_cases: usize,
    pub mean_precision_at_k: Option<Figure>,
    pub mean_recall_at_k: Option<Figure>,
    pub mean_reciprocal_rank: Option<Figure>,
    pub mean_symbol_recall: Option<Figure>,
    pub mean_symbol_reciprocal_rank: Option<Figure>,
    pub mean_compression_ratio: Share,
    pub median_compression_ratio: Share,
}

/// What a [`SummaryFigures`] holds.
#[verifier::ext_equal]
pub struct SummaryFiguresView {
    pub total_cases: usize,
    pub mean_precision_at_k: Option<FigureView>,
    pub mean_recall_at_k: Option<FigureView>,
    pub mean_reciprocal_rank: Option<FigureView>,
    pub mean_symbol_recall: Option<FigureView>,
    pub mean_symbol_reciprocal_rank: Option<FigureView>,
    pub mean_compression_ratio: ShareView,
    pub median_compression_ratio: ShareView,
}

impl DeepView for SummaryFigures {
    type V = SummaryFiguresView;

    open spec fn deep_view(&self) -> SummaryFiguresView {
        SummaryFiguresView {
            total_cases: self.total_cases,
            mean_precision_at_k: self.mean_precision_at_k.deep_view(),
            mean_recall_at_k: self.mean_recall_at_k.deep_view(),
            mean_reciprocal_rank: self.mean_reciprocal_rank.deep_view(),
            mean_symbol_recall: self.mean_symbol_recall.deep_view(),
            mean_symbol_reciprocal_rank: self.mean_symbol_reciprocal_rank.deep_view(),
            mean_compression_ratio: self.mean_compression_ratio.deep_view(),
            median_compression_ratio: self.median_compression_ratio.deep_view(),
        }
    }
}

impl Clone for SummaryFigures {
    fn clone(&self) -> (r: Self)
        ensures
            r.deep_view() == self.deep_view(),
    {
        SummaryFigures {
            total_cases: self.total_cases,
            mean_precision_at_k: self.mean_precision_at_k.clone(),
            mean_recall_at_k: self.mean_recall_at_k.clone(),
            mean_reciprocal_rank: self.mean_reciprocal_rank.clone(),
            mean_symbol_recall: self.mean_symbol_recall.clone(),
            mean_symbol_reciprocal_rank: self.mean_symbol_reciprocal_rank.clone(),
            mean_compression_ratio: self.mean_compression_ratio.clone(),
            median_compression_ratio: self.median_compression_ratio.clone(),
        }
    }
}

/// A tag's averages as shown.
#[derive(Debug)]
pub struct TagFigures {
    pub tag: String,
    pub cases: usize,
    pub mean_precision_at_k: Option<Figure>,
    pub mean_recall_at_k: Option<Figure>,
    pub mean_reciprocal_rank: Option<Figure>,
}

/// What a [`TagFigures`] holds.
#[verifier::ext_equal]
pub struct TagFiguresView {
    pub tag: Seq<char>,
    pub cases: usize,
    pub mean_precision_at_k: Option<FigureView>,
    pub mean_recall_at_k: Option<FigureView>,
    pub mean_reciprocal_rank: Option<FigureView>,
}

impl DeepView for TagFigures {
    type V = TagFiguresView;

    open spec fn deep_view(&self) -> TagFiguresView {
        TagFiguresView {
            tag: self.tag@,
            cases: self.cases,
            mean_precision_at_k: self.mean_precision_at_k.deep_view(),
            mean_recall_at_k: self.mean_recall_at_k.deep_view(),
            mean_reciprocal_rank: self.mean_reciprocal_rank.deep_view(),
        }
    }
}

impl Clone for TagFigures {
    fn clone(&self) -> (r: Self)
        ensures
            r.deep_view() == self.deep_view(),
    {
        TagFigures {
            tag: self.tag.clone(),
            cases: self.cases,
            mean_precision_at_k: self.mean_precision_at_k.clone(),
            mean_recall_at_k: self.mean_recall_at_k.clone(),
            mean_reciprocal_rank: self.mean_reciprocal_rank.clone(),
        }
    }
}

/// A suite's results as shown.
#[derive(Debug)]
pub struct SuiteFigures {
    pub suite_name: String,
    pub cases: Vec<CaseFigures>,
    pub summary: SummaryFigures,
    pub by_tag: Vec<TagFigures>,
    pub elapsed_ms: u64,
}

/// What a [`SuiteFigures`] holds.
#[verifier::ext_equal]
pub struct SuiteFiguresView {
    pub suite_name: Seq<char>,
    pub cases: Seq<CaseFiguresView>,
    pub summary: SummaryFiguresView,
    pub by_tag: Seq<TagFiguresView>,
    pub elapsed_ms: u64,
}

impl DeepView for SuiteFigures {
    type V = SuiteFiguresView;

    open spec fn deep_view(&self) -> SuiteFiguresView {
        SuiteFiguresView {
            suite_name: self.suite_name@,
            cases: self.cases.deep_view(),
            summary: self.summary.deep_view(),
            by_tag: self.by_tag.deep_view(),
            elapsed_ms: self.elapsed_ms,
        }
    }
}

impl Clone for SuiteFigures {
    fn clone(&self) -> (r: Self)
        ensures
            r.deep_view() == self.deep_view(),
    {
        SuiteFigures {
            suite_name: self.suite_name.clone(),
            cases: self.cases.clone(),
            summary: self.summary.clone(),
            by_tag: self.by_tag.clone(),
            elapsed_ms: self.elapsed_ms,
        }
    }
}

/// The bit pattern of 0.8 in single precision.
pub const GOOD_SCORE: u32 = 0x3f4c_cccd;

/// The bit pattern of 0.5 in single precision.
pub const FAIR_SCORE: u32 = 0x3f00_0000;

/// The bit pattern of 0.15.
pub const GOOD_SHARE: u64 = 0x3fc3_3333_3333_3333;

/// The bit pattern of 0.3.
pub const FAIR_SHARE: u64 = 0x3fd3_3333_3333_3333;

/// Whether one score is a number no smaller than another.
pub open spec fn reaches(value: Score, bits: u32) -> bool {
    let min = Score { bits };
    !value.nan() && !min.nan() && value.key() >= min.key()
}

/// The ink of a score: the higher the better.
pub open spec fn score_ink_of(value: Score) -> Ink {
    if reaches(value, GOOD_SCORE) {
        Ink::Green
    } else if reaches(value, FAIR_SCORE) {
        Ink::Yellow
    } else {
        Ink::Red
    }
}

/// The ink of a compression ratio: the lower the better.
pub open spec fn share_ink_of(value: Real) -> Ink {
    if value.at_most_spec(Real { bits: GOOD_SHARE }) {
        Ink::Green
    } else if value.at_most_spec(Real { bits: FAIR_SHARE }) {
        Ink::Yellow
    } else {
        Ink::Red
    }
}

/// A text in an ink, on a terminal that has them.
pub open spec fn inked(text: Seq<char>, ink: Ink, color: bool) -> Seq<char> {
    if color {
        "\u{1b}["@ + ink_code(ink) + "m"@ + text + "\u{1b}[0m"@
    } else {
        text
    }
}

/// A run of spaces.
pub open spec fn spaces(n: int) -> Seq<char> {
    Seq::new(
        if n > 0 {
            n as nat
        } else {
            0
        },
        |i: int| ' ',
    )
}

/// A text filled up with spaces behind it.
pub open spec fn left_aligned(s: Seq<char>, width: int) -> Seq<char> {
    s + spaces(width - s.len())
}

/// A text filled up with spaces before it.
pub open spec fn right_aligned(s: Seq<char>, width: int) -> Seq<char> {
    spaces(width - s.len()) + s
}

/// Whether a text can be cut at that byte.
pub open spec fn can_cut(s: Seq<char>, max: int, at: int) -> bool {
    encode_utf8(s).len() <= max || is_boundary(s, at)
}

/// A label of at most `max` bytes: longer ones lose their end to an ellipsis.
pub open spec fn short_label(s: Seq<char>, max: int) -> Seq<char> {
    if encode_utf8(s).len() <= max {
        s
    } else {
        text_between(s, 0, max - 1)->0.push('…')
    }
}

/// The first 27 bytes of a query.
pub open spec fn short_query(q: Seq<char>) -> Seq<char> {
    if encode_utf8(q).len() <= 27 {
        q
    } else {
        text_between(q, 0, 27)->0
    }
}

/// What a case is called in the table: its label, or its query.
pub open spec fn case_name(c: CaseFiguresView) -> Seq<char> {
    match c.label {
        Some(l) => l,
        None => short_query(c.query),
    }
}

/// Whether a case's name can be cut where the table cuts it.
pub open spec fn name_fits(c: CaseFiguresView) -> bool {
    match c.label {
        Some(l) => can_cut(l, 27, 26),
        None => can_cut(c.query, 27, 27),
    }
}

/// A score in its ink.
pub open spec fn score_cell(f: FigureView, color: bool) -> Seq<char> {
    inked(f.text, score_ink_of(f.value), color)
}

/// A compression ratio in its ink.
pub open spec fn share_cell(s: ShareView, color: bool) -> Seq<char> {
    inked(s.text, share_ink_of(s.value), color)
}

/// A score in its ink, or a dimmed dash.
pub open spec fn score_or_dash(f: Option<FigureView>, color: bool) -> Seq<char> {
    match f {
        Some(x) => score_cell(x, color),
        None => inked("—"@, Ink::Dimmed, color),
    }
}

/// A score in its ink, or a plain dash.
pub open spec fn score_or_plain_dash(f: Option<FigureView>, color: bool) -> Seq<char> {
    match f {
        Some(x) => score_cell(x, color),
        None => "—"@,
    }
}

/// One of a case's relevance figures.
pub open spec fn relevance_figure(c: CaseFiguresView, which: int) -> Option<FigureView> {
    match c.relevance {
        Some(r) => Some(
            if which == 0 {
                r.precision_at_k
            } else if which == 1 {
                r.recall_at_k
            } else {
                r.reciprocal_rank
            },
        ),
        None => None,
    }
}

/// The row of a case.
pub open spec fn case_row(c: CaseFiguresView, color: bool) -> Seq<char> {
    left_aligned(short_label(case_name(c), 27), 28) + " "@ + right_aligned(
        score_or_dash(relevance_figure(c, 0), color),
        6,
    ) + " "@ + right_aligned(score_or_dash(relevance_figure(c, 1), color), 6) + " "@
        + right_aligned(score_or_dash(relevance_figure(c, 2), color), 6) + " "@ + right_aligned(
        score_or_dash(c.symbol_recall, color),
        6,
    ) + " "@ + right_aligned(share_cell(c.compression, color), 7) + " "@ + right_aligned(
        decimal(c.files_returned as nat),
        5,
    ) + " "@ + right_aligned(decimal(c.elapsed_ms as nat), 6) + "ms\n"@
}

/// The rows of the cases.
pub open spec fn case_rows(cases: Seq<CaseFiguresView>, color: bool) -> Seq<char>
    decreases cases.len(),
{
    if cases.len() == 0 {
        Seq::<char>::empty()
    } else {
        case_rows(cases.drop_last(), color) + case_row(cases.last(), color)
    }
}

/// A line of the summary for a score, where there is one.
pub open spec fn score_line(name: Seq<char>, f: Option<FigureView>, color: bool) -> Seq<char> {
    match f {
        Some(x) => name + score_cell(x, color) + "\n"@,
        None => Seq::<char>::empty(),
    }
}

/// The row of a tag.
pub open spec fn tag_row(t: TagFiguresView, color: bool) -> Seq<char> {
    left_aligned(t.tag, 16) + " "@ + right_aligned(decimal(t.cases as nat), 3) + " "@
        + right_aligned(score_or_plain_dash(t.mean_precision_at_k, color), 6) + " "@
        + right_aligned(score_or_plain_dash(t.mean_recall_at_k, color), 6) + " "@ + right_aligned(
        score_or_plain_dash(t.mean_reciprocal_rank, color),
        6,
    ) + "\n"@
}

/// The rows of the tags.
pub open spec fn tag_rows(tags: Seq<TagFiguresView>, color: bool) -> Seq<char>
    decreases tags.len(),
{
    if tags.len() == 0 {
        Seq::<char>::empty()
    } else {
        tag_rows(tags.drop_last(), color) + tag_row(tags.last(), color)
    }
}

/// The heading of the columns of cases.
pub open spec fn case_heading() -> Seq<char> {
    left_aligned("Case"@, 28) + " "@ + right_aligned("P@K"@, 6) + " "@ + right_aligned("R@K"@, 6)
        + " "@ + right_aligned("MRR"@, 6) + " "@ + right_aligned("SymR"@, 6) + " "@ + right_aligned(
        "Comp."@,
        7,
    ) + " "@ + right_aligned("Files"@, 5) + " "@ + right_aligned("Time"@, 8)
}

/// The heading of the columns of tags.
pub open spec fn tag_heading() -> Seq<char> {
    left_aligned("Tag"@, 16) + " "@ + right_aligned("n"@, 3) + " "@ + right_aligned("P@K"@, 6)
        + " "@ + right_aligned("R@K"@, 6) + " "@ + right_aligned("MRR"@, 6)
}

/// The title and the cases.
pub open spec fn cases_part(r: SuiteFiguresView, color: bool) -> Seq<char> {
    inked(
        "wdpkr eval — "@ + r.suite_name + " ("@ + decimal(r.summary.total_cases as nat)
            + " cases)"@,
        Ink::Bold,
        color,
    ) + "\n"@ + "\n"@ + inked(case_heading(), Ink::Dimmed, color) + "\n"@ + case_rows(
        r.cases,
        color,
    )
}

/// The averages.
pub open spec fn summary_part(r: SuiteFiguresView, color: bool) -> Seq<char> {
    let s = r.summary;
    "\n"@ + inked("Summary"@, Ink::Bold, color) + "\n"@ + "  Cases:       "@ + decimal(
        s.total_cases as nat,
    ) + "\n"@ + score_line("  Mean P@K:    "@, s.mean_precision_at_k, color) + score_line(
        "  Mean R@K:    "@,
        s.mean_recall_at_k,
        color,
    ) + score_line("  Mean MRR:    "@, s.mean_reciprocal_rank, color) + score_line(
        "  Mean Sym R:  "@,
        s.mean_symbol_recall,
        color,
    ) + score_line(
        "  Mean Sym MRR:"@,
        spaced(s.mean_symbol_reciprocal_rank),
        color,
    ) + "  Mean Comp.:  "@
        + share_cell(s.mean_compression_ratio, color) + "\n"@ + "  Med. Comp.:  "@ + share_cell(
        s.median_compression_ratio,
        color,
    ) + "\n"@ + "  Total time:  "@ + decimal(r.elapsed_ms as nat) + "ms\n"@
}

/// A figure with a space before it, which takes its color too.
pub open spec fn spaced(f: Option<FigureView>) -> Option<FigureView> {
    match f {
        Some(f) => Some(FigureView { text: " "@ + f.text, value: f.value }),
        None => None,
    }
}

/// The averages by tag, where there are tags.
pub open spec fn tags_part(r: SuiteFiguresView, color: bool) -> Seq<char> {
    if r.by_tag.len() == 0 {
        Seq::<char>::empty()
    } else {
        "\n"@ + inked("By tag"@, Ink::Bold, color) + "\n"@ + inked(
            tag_heading(),
            Ink::Dimmed,
            color,
        ) + "\n"@ + tag_rows(r.by_tag, color)
    }
}

/// The table of a suite.
pub open spec fn table_of(r: SuiteFiguresView, color: bool) -> Seq<char> {
    cases_part(r, color) + summary_part(r, color) + tags_part(r, color)
}

fn apply(text: &str, ink: Ink, color: bool) -> (r: String)
    ensures
        r@ == inked(text@, ink, color),
{
    if color {
        paint(text, ink)
    } else {
        text.to_string()
    }
}

fn push_spaces(out: &mut String, n: usize)
    ensures
        final(out)@ == old(out)@ + spaces(n as int),
{
    let ghost start = out@;
    let mut i: usize = 0;
    assert(start + spaces(0) =~= start);
    while i < n
        invariant
            i <= n,
            out@ == start + spaces(i as int),
        decreases n - i,
    {
        out.push(' ');
        assert(start + spaces(i + 1) =~= (start + spaces(i as int)).push(' '));
        i += 1;
    }
}

fn gap(s: &str, width: usize) -> (r: usize)
    ensures
        r == if width > s@.len() {
            width - s@.len()
        } else {
            0
        },
{
    let n: usize = s.unicode_len();
    if width > n {
        width - n
    } else {
        0
    }
}

fn align_left(s: &str, width: usize) -> (r: String)
    ensures
        r@ == left_aligned(s@, width as int),
{
    let mut r = s.to_string();
    let n: usize = gap(s, width);
    push_spaces(&mut r, n);
    assert(spaces(n as int) =~= spaces(width - s@.len()));
    r
}

fn align_right(s: &str, width: usize) -> (r: String)
    ensures
        r@ == right_aligned(s@, width as int),
{
    let mut r = String::new();
    let n: usize = gap(s, width);
    push_spaces(&mut r, n);
    assert(spaces(n as int) =~= spaces(width - s@.len()));
    assert(r@ =~= spaces(width - s@.len()));
    r.append(s);
    r
}

/// Cuts a label that is longer than `max` bytes.
pub fn truncate_label(s: &str, max: usize) -> (r: String)
    requires
        max > 0,
        can_cut(s@, max as int, max - 1),
    ensures
        r@ == short_label(s@, max as int),
{
    if s.as_bytes().len() <= max {
        return s.to_string();
    }
    let src = Source::new(s);
    proof {
        crate::bytes::lemma_prefix_text(s@, max - 1);
    }
    match src.slice(0, max - 1) {
        Some(t) => {
            let mut r = t;
            r.push('…');
            r
        },
        None => String::new(),
    }
}

/// Cuts a query to its first 27 bytes.
pub fn truncate_query(q: &str) -> (r: String)
    requires
        can_cut(q@, 27, 27),
    ensures
        r@ == short_query(q@),
        encode_utf8(r@).len() <= 27,
{
    if q.as_bytes().len() <= 27 {
        return q.to_string();
    }
    let src = Source::new(q);
    proof {
        crate::bytes::lemma_prefix_text(q@, 27);
    }
    match src.slice(0, 27) {
        Some(t) => t,
        None => String::new(),
    }
}

fn score_ink(value: Score) -> (r: Ink)
    ensures
        r == score_ink_of(value),
{
    if value.at_least(Score { bits: GOOD_SCORE }) {
        Ink::Green
    } else if value.at_least(Score { bits: FAIR_SCORE }) {
        Ink::Yellow
    } else {
        Ink::Red
    }
}

fn share_ink(value: Real) -> (r: Ink)
    ensures
        r == share_ink_of(value),
{
    if value.at_most(Real { bits: GOOD_SHARE }) {
        Ink::Green
    } else if value.at_most(Real { bits: FAIR_SHARE }) {
        Ink::Yellow
    } else {
        Ink::Red
    }
}

fn show_score(f: &Figure, color: bool) -> (r: String)
    ensures
        r@ == score_cell(f.deep_view(), color),
{
    apply(f.text.as_str(), score_ink(f.value), color)
}

fn show_share(s: &Share, color: bool) -> (r: String)
    ensures
        r@ == share_cell(s.deep_view(), color),
{
    apply(s.text.as_str(), share_ink(s.value), color)
}

fn show_optional(f: &Option<Figure>, color: bool) -> (r: String)
    ensures
        r@ == score_or_plain_dash(f.deep_view(), color),
{
    match f {
        Some(x) => show_score(x, color),
        None => "—".to_string(),
    }
}

fn push_score_line(out: &mut String, name: &str, f: &Option<Figure>, color: bool)
    ensures
        final(out)@ == old(out)@ + score_line(name@, f.deep_view(), color),
{
    let ghost start = out@;
    match f {
        Some(x) => {
            out.append(name);
            out.append(show_score(x, color).as_str());
            out.append("\n");
            assert(out@ =~= start + score_line(name@, f.deep_view(), color));
        },
        None => {
            assert(start + Seq::<char>::empty() =~= start);
        },
    }
}

/// Writes the row of a case.
pub fn render_case_row(out: &mut String, case: &CaseFigures, color: bool)
    requires
        name_fits(case.deep_view()),
    ensures
        final(out)@ == old(out)@ + case_row(case.deep_view(), color),
{
    let ghost start = out@;
    let name = match &case.label {
        Some(l) => l.clone(),
        None => truncate_query(case.query.as_str()),
    };
    let dash = apply("—", Ink::Dimmed, color);
    let (p, r, m) = match &case.relevance {
        Some(rel) => (
            show_score(&rel.precision_at_k, color),
            show_score(&rel.recall_at_k, color),
            show_score(&rel.reciprocal_rank, color),
        ),
        None => (dash.clone(), dash.clone(), dash.clone()),
    };
    let sym = match &case.symbol_recall {
        Some(f) => show_score(f, color),
        None => dash,
    };
    let comp = show_share(&case.compression, color);
    let mut row = align_left(truncate_label(name.as_str(), 27).as_str(), 28);
    row.append(" ");
    row.append(align_right(p.as_str(), 6).as_str());
    row.append(" ");
    row.append(align_right(r.as_str(), 6).as_str());
    row.append(" ");
    row.append(align_right(m.as_str(), 6).as_str());
    row.append(" ");
    row.append(align_right(sym.as_str(), 6).as_str());
    row.append(" ");
    row.append(align_right(comp.as_str(), 7).as_str());
    row.append(" ");
    row.append(align_right(show_usize(case.files_returned).as_str(), 5).as_str());
    row.append(" ");
    row.append(align_right(show_u64(case.elapsed_ms).as_str(), 6).as_str());
    row.append("ms\n");
    assert(row@ == case_row(case.deep_view(), color));
    out.append(row.as_str());
}

fn render_cases(result: &SuiteFigures, color: bool) -> (r: String)
    requires
        forall|i: int|
            0 <= i < result.cases@.len() ==> name_fits((#[trigger] result.cases@[i]).deep_view()),
    ensures
        r@ == cases_part(result.deep_view(), color),
{
    let mut title = "wdpkr eval — ".to_string();
    title.append(result.suite_name.as_str());
    title.append(" (");
    title.append(show_usize(result.summary.total_cases).as_str());
    title.append(" cases)");
    let mut out = apply(title.as_str(), Ink::Bold, color);
    out.append("\n");
    out.append("\n");
    let mut heading = align_left("Case", 28);
    heading.append(" ");
    heading.append(align_right("P@K", 6).as_str());
    heading.append(" ");
    heading.append(align_right("R@K", 6).as_str());
    heading.append(" ");
    heading.append(align_right("MRR", 6).as_str());
    heading.append(" ");
    heading.append(align_right("SymR", 6).as_str());
    heading.append(" ");
    heading.append(align_right("Comp.", 7).as_str());
    heading.append(" ");
    heading.append(align_right("Files", 5).as_str());
    heading.append(" ");
    heading.append(align_right("Time", 8).as_str());
    assert(heading@ == case_heading());
    out.append(apply(heading.as_str(), Ink::Dimmed, color).as_str());
    out.append("\n");
    let ghost head = out@;
    let ghost cv = result.cases.deep_view();
    let mut i: usize = 0;
    assert(head + case_rows(cv.take(0), color) =~= head);
    while i < result.cases.len()
        invariant
            i <= result.cases@.len(),
            cv == result.cases.deep_view(),
            forall|k: int|
                0 <= k < result.cases@.len() ==> name_fits(
                    (#[trigger] result.cases@[k]).deep_view(),
                ),
            out@ == head + case_rows(cv.take(i as int), color),
        decreases result.cases@.len() - i,
    {
        render_case_row(&mut out, &result.cases[i], color);
        proof {
            assert(cv.take(i + 1).drop_last() =~= cv.take(i as int));
            assert(cv.take(i + 1).last() == result.cases@[i as int].deep_view());
            assert(out@ =~= head + case_rows(cv.take(i + 1), color));
        }
        i += 1;
    }
    assert(cv.take(i as int) =~= cv);
    out
}

fn render_summary(result: &SuiteFigures, color: bool) -> (r: String)
    ensures
        r@ == summary_part(result.deep_view(), color),
{
    let s = &result.summary;
    let mut out = "\n".to_string();
    out.append(apply("Summary", Ink::Bold, color).as_str());
    out.append("\n");
    out.append("  Cases:       ");
    out.append(show_usize(s.total_cases).as_str());
    out.append("\n");
    push_score_line(&mut out, "  Mean P@K:    ", &s.mean_precision_at_k, color);
    push_score_line(&mut out, "  Mean R@K:    ", &s.mean_recall_at_k, color);
    push_score_line(&mut out, "  Mean MRR:    ", &s.mean_reciprocal_rank, color);
    push_score_line(&mut out, "  Mean Sym R:  ", &s.mean_symbol_recall, color);
    let symbol_rank = match &s.mean_symbol_reciprocal_rank {
        Some(f) => {
            let mut text = " ".to_string();
            text.append(f.text.as_str());
            Some(Figure { text, value: f.value })
        },
        None => None,
    };
    push_score_line(&mut out, "  Mean Sym MRR:", &symbol_rank, color);
    out.append("  Mean Comp.:  ");
    out.append(show_share(&s.mean_compression_ratio, color).as_str());
    out.append("\n");
    out.append("  Med. Comp.:  ");
    out.append(show_share(&s.median_compression_ratio, color).as_str());
    out.append("\n");
    out.append("  Total time:  ");
    out.append(show_u64(result.elapsed_ms).as_str());
    out.append("ms\n");
    out
}

fn render_tags(result: &SuiteFigures, color: bool) -> (r: String)
    ensures
        r@ == tags_part(result.deep_view(), color),
{
    let ghost tv = result.by_tag.deep_view();
    assert(tv.len() == result.by_tag@.len());
    if result.by_tag.len() == 0 {
        return String::new();
    }
    let mut out = "\n".to_string();
    out.append(apply("By tag", Ink::Bold, color).as_str());
    out.append("\n");
    let mut heading = align_left("Tag", 16);
    heading.append(" ");
    heading.append(align_right("n", 3).as_str());
    heading.append(" ");
    heading.append(align_right("P@K", 6).as_str());
    heading.append(" ");
    heading.append(align_right("R@K", 6).as_str());
    heading.append(" ");
    heading.append(align_right("MRR", 6).as_str());
    assert(heading@ == tag_heading());
    out.append(apply(heading.as_str(), Ink::Dimmed, color).as_str());
    out.append("\n");
    let ghost head = out@;
    let mut i: usize = 0;
    assert(head + tag_rows(tv.take(0), color) =~= head);
    while i < result.by_tag.len()
        invariant
            i <= result.by_tag@.len(),
            tv == result.by_tag.deep_view(),
            out@ == head + tag_rows(tv.take(i as int), color),
        decreases result.by_tag@.len() - i,
    {
        let t = &result.by_tag[i];
        let mut row = align_left(t.tag.as_str(), 16);
        row.append(" ");
        row.append(align_right(show_usize(t.cases).as_str(), 3).as_str());
        row.append(" ");
        row.append(align_right(show_optional(&t.mean_precision_at_k, color).as_str(), 6).as_str());
        row.append(" ");
        row.append(align_right(show_optional(&t.mean_recall_at_k, color).as_str(), 6).as_str());
        row.append(" ");
        row.append(align_right(show_optional(&t.mean_reciprocal_rank, color).as_str(), 6).as_str());
        row.append("\n");
        out.append(row.as_str());
        proof {
            assert(row@ == tag_row(t.deep_view(), color));
            assert(tv.take(i + 1).drop_last() =~= tv.take(i as int));
            assert(tv.take(i + 1).last() == t.deep_view());
            assert(out@ =~= head + tag_rows(tv.take(i + 1), color));
        }
        i += 1;
    }
    assert(tv.take(i as int) =~= tv);
    out
}

/// Renders a suite as a table, in color where the terminal has it.
pub fn render_table(result: &SuiteFigures, color: bool) -> (r: String)
    requires
        forall|i: int|
            0 <= i < result.cases@.len() ==> name_fits((#[trigger] result.cases@[i]).deep_view()),
    ensures
        r@ == table_of(result.deep_view(), color),
{
    let mut out = render_cases(result, color);
    out.append(render_summary(result, color).as_str());
    out.append(render_tags(result, color).as_str());
    out
}

// ---------------------------------------------------------------------------
// Laws
// ---------------------------------------------------------------------------

/// A figure as a row shows it: its text, or a dash where there is none.
pub open spec fn shown(f: Option<FigureView>) -> Seq<char> {
    match f {
        Some(x) => x.text,
        None => "—"@,
    }
}

/// Whether the column of a line that ends at `end` holds that text, at its right.
pub open spec fn column_shows(line: Seq<char>, end: int, text: Seq<char>) -> bool {
    end <= line.len() && has_suffix(line.take(end), text)
}

/// The headings of the table stand at the right of their columns.
pub proof fn law_case_heading()
    ensures
        column_shows(case_heading(), 35, "P@K"@),
        column_shows(case_heading(), 42, "R@K"@),
        column_shows(case_heading(), 49, "MRR"@),
        column_shows(case_heading(), 56, "SymR"@),
        column_shows(case_heading(), 64, "Comp."@),
        column_shows(case_heading(), 70, "Files"@),
        column_shows(case_heading(), 79, "Time"@),
{
    reveal_strlit("Case");
    reveal_strlit("P@K");
    reveal_strlit("R@K");
    reveal_strlit("MRR");
    reveal_strlit("SymR");
    reveal_strlit("Comp.");
    reveal_strlit("Files");
    reveal_strlit("Time");
    lemma_seven_columns(
        left_aligned("Case"@, 28),
        "P@K"@,
        "R@K"@,
        "MRR"@,
        "SymR"@,
        "Comp."@,
        "Files"@,
        "Time"@,
        8,
        Seq::empty(),
    );
    assert(left_aligned("Case"@, 28).len() == 28);
    assert(case_heading() + Seq::<char>::empty() =~= case_heading());
}

proof fn lemma_seven_columns(
    name: Seq<char>,
    a: Seq<char>,
    b: Seq<char>,
    c: Seq<char>,
    d: Seq<char>,
    e: Seq<char>,
    f: Seq<char>,
    g: Seq<char>,
    last: int,
    rest: Seq<char>,
)
    requires
        a.len() <= 6,
        b.len() <= 6,
        c.len() <= 6,
        d.len() <= 6,
        e.len() <= 7,
        f.len() <= 5,
        g.len() <= last,
    ensures
        ({
            let n = name.len() as int;
            let line = name + " "@ + right_aligned(a, 6) + " "@ + right_aligned(b, 6) + " "@
                + right_aligned(c, 6) + " "@ + right_aligned(d, 6) + " "@ + right_aligned(e, 7)
                + " "@ + right_aligned(f, 5) + " "@ + right_aligned(g, last) + rest;
            &&& column_shows(line, n + 7, a)
            &&& column_shows(line, n + 14, b)
            &&& column_shows(line, n + 21, c)
            &&& column_shows(line, n + 28, d)
            &&& column_shows(line, n + 36, e)
            &&& column_shows(line, n + 42, f)
            &&& column_shows(line, n + 43 + last, g)
        }),
{
    reveal_strlit(" ");
    let p1 = name + " "@ + right_aligned(a, 6);
    let p2 = p1 + " "@ + right_aligned(b, 6);
    let p3 = p2 + " "@ + right_aligned(c, 6);
    let p4 = p3 + " "@ + right_aligned(d, 6);
    let p5 = p4 + " "@ + right_aligned(e, 7);
    let p6 = p5 + " "@ + right_aligned(f, 5);
    let p7 = p6 + " "@ + right_aligned(g, last);
    lemma_ends_with(name + " "@, a, 6);
    lemma_ends_with(p1 + " "@, b, 6);
    lemma_ends_with(p2 + " "@, c, 6);
    lemma_ends_with(p3 + " "@, d, 6);
    lemma_ends_with(p4 + " "@, e, 7);
    lemma_ends_with(p5 + " "@, f, 5);
    lemma_ends_with(p6 + " "@, g, last);
    lemma_begins(p1, " "@, right_aligned(b, 6));
    lemma_begins(p2, " "@, right_aligned(c, 6));
    lemma_begins(p3, " "@, right_aligned(d, 6));
    lemma_begins(p4, " "@, right_aligned(e, 7));
    lemma_begins(p5, " "@, right_aligned(f, 5));
    lemma_begins(p6, " "@, right_aligned(g, last));
    lemma_begins(p7, rest, Seq::empty());
    let line = p7 + rest;
    assert(line + Seq::<char>::empty() =~= line);
    lemma_through(p5, p6, line, p7);
    lemma_through(p4, p5, line, p6);
    lemma_through(p3, p4, line, p5);
    lemma_through(p2, p3, line, p4);
    lemma_through(p1, p2, line, p3);
}

proof fn lemma_ends_with(before: Seq<char>, text: Seq<char>, width: int)
    requires
        text.len() <= width,
    ensures
        has_suffix(before + right_aligned(text, width), text),
        (before + right_aligned(text, width)).len() == before.len() + width,
{
    let p = before + right_aligned(text, width);
    assert(p.skip(p.len() - text.len()) =~= text);
}

proof fn lemma_begins(p: Seq<char>, a: Seq<char>, b: Seq<char>)
    ensures
        has_prefix(p + a + b, p),
        has_prefix(p, p),
{
    assert((p + a + b).take(p.len() as int) =~= p);
    assert(p.take(p.len() as int) =~= p);
}

proof fn lemma_through(p: Seq<char>, q: Seq<char>, line: Seq<char>, r: Seq<char>)
    requires
        has_prefix(q, p),
        has_prefix(r, q),
        has_prefix(line, r),
    ensures
        has_prefix(line, q),
        has_prefix(line, p),
{
    assert(line.take(q.len() as int) =~= r.take(q.len() as int));
    assert(line.take(p.len() as int) =~= q.take(p.len() as int));
}

/// Every figure of a case stands in its row under its own heading: precision under
/// `P@K`, recall under `R@K`, the reciprocal rank under `MRR`, the symbols' recall
/// under `SymR`, then the compression, the files and the time; a case that was not
/// graded shows dashes.
pub proof fn law_case_rows_stand_under_their_headings(c: CaseFiguresView)
    requires
        short_label(case_name(c), 27).len() <= 28,
        c.relevance matches Some(r) ==> r.precision_at_k.text.len() <= 6
            && r.recall_at_k.text.len() <= 6 && r.reciprocal_rank.text.len() <= 6,
        c.symbol_recall matches Some(f) ==> f.text.len() <= 6,
        c.compression.text.len() <= 7,
        decimal(c.files_returned as nat).len() <= 5,
        decimal(c.elapsed_ms as nat).len() <= 6,
    ensures
        ({
            let row = case_row(c, false);
            &&& has_prefix(row, short_label(case_name(c), 27))
            &&& column_shows(
                row,
                35,
                match c.relevance {
                    Some(r) => r.precision_at_k.text,
                    None => "—"@,
                },
            )
            &&& column_shows(
                row,
                42,
                match c.relevance {
                    Some(r) => r.recall_at_k.text,
                    None => "—"@,
                },
            )
            &&& column_shows(
                row,
                49,
                match c.relevance {
                    Some(r) => r.reciprocal_rank.text,
                    None => "—"@,
                },
            )
            &&& column_shows(row, 56, shown(c.symbol_recall))
            &&& column_shows(row, 64, c.compression.text)
            &&& column_shows(row, 70, decimal(c.files_returned as nat))
            &&& column_shows(row, 77, decimal(c.elapsed_ms as nat))
        }),
{
    reveal_strlit("—");
    let name = left_aligned(short_label(case_name(c), 27), 28);
    assert(name.len() == 28);
    lemma_seven_columns(
        name,
        shown(relevance_figure(c, 0)),
        shown(relevance_figure(c, 1)),
        shown(relevance_figure(c, 2)),
        shown(c.symbol_recall),
        c.compression.text,
        decimal(c.files_returned as nat),
        decimal(c.elapsed_ms as nat),
        6,
        "ms\n"@,
    );
    let row = case_row(c, false);
    assert(row.take(short_label(case_name(c), 27).len() as int) =~= short_label(case_name(c), 27));
}

/// A case goes by its label, or by its query where it has none.
pub proof fn law_cases_go_by_their_labels(c: CaseFiguresView)
    ensures
        c.label matches Some(l) ==> case_name(c) == l,
        c.label is None && encode_utf8(c.query).len() <= 27 ==> case_name(c) == c.query,
{
}

/// Color adds marks around a text and nothing else; without it the text is as it
/// is.
pub proof fn law_ink(text: Seq<char>, ink: Ink)
    ensures
        inked(text, ink, false) == text,
        occurs(inked(text, ink, true), text),
{
    lemma_part_between("\u{1b}["@ + ink_code(ink) + "m"@, text, "\u{1b}[0m"@);
}

proof fn lemma_regroup(x: Seq<char>, a: Seq<char>, b: Seq<char>, c: Seq<char>)
    ensures
        x + a + b + c == x + (a + b + c),
{
    assert(x + a + b + c =~= x + (a + b + c));
}

/// Every figure of a summary stands behind its own name.
pub proof fn law_summary_names_its_figures(r: SuiteFiguresView)
    ensures
        ({
            let t = summary_part(r, false);
            let s = r.summary;
            &&& s.mean_precision_at_k matches Some(f) ==> occurs(
                t,
                "  Mean P@K:    "@ + f.text + "\n"@,
            )
            &&& s.mean_recall_at_k matches Some(f) ==> occurs(
                t,
                "  Mean R@K:    "@ + f.text + "\n"@,
            )
            &&& s.mean_reciprocal_rank matches Some(f) ==> occurs(
                t,
                "  Mean MRR:    "@ + f.text + "\n"@,
            )
            &&& s.mean_symbol_recall matches Some(f) ==> occurs(
                t,
                "  Mean Sym R:  "@ + f.text + "\n"@,
            )
            &&& s.mean_symbol_reciprocal_rank matches Some(f) ==> occurs(
                t,
                "  Mean Sym MRR:"@ + (" "@ + f.text) + "\n"@,
            )
            &&& occurs(t, "  Mean Comp.:  "@ + s.mean_compression_ratio.text + "\n"@)
            &&& occurs(t, "  Med. Comp.:  "@ + s.median_compression_ratio.text + "\n"@)
            &&& occurs(t, "  Total time:  "@ + decimal(r.elapsed_ms as nat) + "ms\n"@)
        }),
{
    let s = r.summary;
    let head = "\n"@ + "Summary"@ + "\n"@ + "  Cases:       "@ + decimal(s.total_cases as nat)
        + "\n"@;
    let l1 = score_line("  Mean P@K:    "@, s.mean_precision_at_k, false);
    let l2 = score_line("  Mean R@K:    "@, s.mean_recall_at_k, false);
    let l3 = score_line("  Mean MRR:    "@, s.mean_reciprocal_rank, false);
    let l4 = score_line("  Mean Sym R:  "@, s.mean_symbol_recall, false);
    let l5 = score_line("  Mean Sym MRR:"@, spaced(s.mean_symbol_reciprocal_rank), false);
    let c1 = "  Mean Comp.:  "@;
    let c2 = "  Med. Comp.:  "@;
    let c3 = "  Total time:  "@;
    let v1 = s.mean_compression_ratio.text;
    let v2 = s.median_compression_ratio.text;
    let v3 = decimal(r.elapsed_ms as nat);
    let x = head + l1 + l2 + l3 + l4 + l5;
    lemma_regroup(x, c1, v1, "\n"@);
    let y = x + (c1 + v1 + "\n"@);
    lemma_regroup(y, c2, v2, "\n"@);
    let z = y + (c2 + v2 + "\n"@);
    lemma_regroup(z, c3, v3, "ms\n"@);
    lemma_nine_parts(
        head,
        l1,
        l2,
        l3,
        l4,
        l5,
        c1 + v1 + "\n"@,
        c2 + v2 + "\n"@,
        c3 + v3 + "ms\n"@,
        Seq::empty(),
    );
    let t = summary_part(r, false);
    assert(t == z + (c3 + v3 + "ms\n"@));
    assert(t + Seq::<char>::empty() =~= t);
}

/// Every figure of a tag stands in its row under its own heading.
pub proof fn law_tag_rows_stand_under_their_headings(t: TagFiguresView)
    requires
        t.tag.len() <= 16,
        decimal(t.cases as nat).len() <= 3,
        t.mean_precision_at_k matches Some(f) ==> f.text.len() <= 6,
        t.mean_recall_at_k matches Some(f) ==> f.text.len() <= 6,
        t.mean_reciprocal_rank matches Some(f) ==> f.text.len() <= 6,
    ensures
        ({
            let row = tag_row(t, false);
            &&& has_prefix(row, t.tag)
            &&& column_shows(row, 20, decimal(t.cases as nat))
            &&& column_shows(row, 27, shown(t.mean_precision_at_k))
            &&& column_shows(row, 34, shown(t.mean_recall_at_k))
            &&& column_shows(row, 41, shown(t.mean_reciprocal_rank))
            &&& column_shows(tag_heading(), 20, "n"@)
            &&& column_shows(tag_heading(), 27, "P@K"@)
            &&& column_shows(tag_heading(), 34, "R@K"@)
            &&& column_shows(tag_heading(), 41, "MRR"@)
        }),
{
    reveal_strlit("—");
    reveal_strlit("Tag");
    reveal_strlit("n");
    reveal_strlit("P@K");
    reveal_strlit("R@K");
    reveal_strlit("MRR");
    let row = tag_row(t, false);
    assert(left_aligned(t.tag, 16).len() == 16);
    assert(left_aligned("Tag"@, 16).len() == 16);
    lemma_four_columns(
        left_aligned(t.tag, 16),
        decimal(t.cases as nat),
        shown(t.mean_precision_at_k),
        shown(t.mean_recall_at_k),
        shown(t.mean_reciprocal_rank),
        "\n"@,
    );
    lemma_four_columns(left_aligned("Tag"@, 16), "n"@, "P@K"@, "R@K"@, "MRR"@, Seq::empty());
    assert(tag_heading() + Seq::<char>::empty() =~= tag_heading());
    assert(row.take(t.tag.len() as int) =~= t.tag);
}

proof fn lemma_four_columns(
    name: Seq<char>,
    a: Seq<char>,
    b: Seq<char>,
    c: Seq<char>,
    d: Seq<char>,
    rest: Seq<char>,
)
    requires
        a.len() <= 3,
        b.len() <= 6,
        c.len() <= 6,
        d.len() <= 6,
    ensures
        ({
            let n = name.len() as int;
            let line = name + " "@ + right_aligned(a, 3) + " "@ + right_aligned(b, 6) + " "@
                + right_aligned(c, 6) + " "@ + right_aligned(d, 6) + rest;
            &&& column_shows(line, n + 4, a)
            &&& column_shows(line, n + 11, b)
            &&& column_shows(line, n + 18, c)
            &&& column_shows(line, n + 25, d)
        }),
{
    reveal_strlit(" ");
    let p1 = name + " "@ + right_aligned(a, 3);
    let p2 = p1 + " "@ + right_aligned(b, 6);
    let p3 = p2 + " "@ + right_aligned(c, 6);
    let p4 = p3 + " "@ + right_aligned(d, 6);
    lemma_ends_with(name + " "@, a, 3);
    lemma_ends_with(p1 + " "@, b, 6);
    lemma_ends_with(p2 + " "@, c, 6);
    lemma_ends_with(p3 + " "@, d, 6);
    lemma_begins(p1, " "@, right_aligned(b, 6));
    lemma_begins(p2, " "@, right_aligned(c, 6));
    lemma_begins(p3, " "@, right_aligned(d, 6));
    lemma_begins(p4, rest, Seq::empty());
    let line = p4 + rest;
    assert(line + Seq::<char>::empty() =~= line);
    lemma_through(p2, p3, line, p4);
    lemma_through(p1, p2, line, p3);
}

/// A table holds, in this order, a heading with the name of the suite, a row for
/// every case, the summary, and where there are tags a row for each.
pub proof fn law_table_holds_every_row(r: SuiteFiguresView, color: bool)
    ensures
        occurs(table_of(r, color), summary_part(r, color)),
        occurs(table_of(r, color), r.suite_name),
        forall|k: int|
            0 <= k < r.cases.len() ==> occurs(
                table_of(r, color),
                case_row(#[trigger] r.cases[k], color),
            ),
        forall|k: int|
            0 <= k < r.by_tag.len() ==> occurs(
                table_of(r, color),
                tag_row(#[trigger] r.by_tag[k], color),
            ),
{
    let t = table_of(r, color);
    let a = cases_part(r, color);
    let b = summary_part(r, color);
    let c = tags_part(r, color);
    lemma_part_between(a, b, c);
    lemma_part_at_end(a + b, c);
    lemma_part_between(Seq::empty(), a, b + c);
    assert(Seq::empty() + a + (b + c) =~= t);
    let title = "wdpkr eval — "@ + r.suite_name + " ("@ + decimal(r.summary.total_cases as nat)
        + " cases)"@;
    let more = " ("@ + decimal(r.summary.total_cases as nat) + " cases)"@;
    lemma_part_between("wdpkr eval — "@, r.suite_name, more);
    assert("wdpkr eval — "@ + r.suite_name + more =~= title);
    let bold = inked(title, Ink::Bold, color);
    law_ink(title, Ink::Bold);
    if !color {
        assert(title.subrange(0, title.len() as int) =~= title);
        assert(occurs_at(title, title, 0));
    }
    lemma_part_of_part(r.suite_name, title, bold);
    let rows = case_rows(r.cases, color);
    let head = bold + "\n"@ + "\n"@ + inked(case_heading(), Ink::Dimmed, color) + "\n"@;
    lemma_part_stays(bold, r.suite_name, "\n"@);
    lemma_part_stays(bold + "\n"@, r.suite_name, "\n"@);
    lemma_part_stays(
        bold + "\n"@ + "\n"@,
        r.suite_name,
        inked(case_heading(), Ink::Dimmed, color),
    );
    lemma_part_stays(
        bold + "\n"@ + "\n"@ + inked(case_heading(), Ink::Dimmed, color),
        r.suite_name,
        "\n"@,
    );
    lemma_part_stays(head, r.suite_name, rows);
    lemma_part_of_part(r.suite_name, a, t);
    lemma_part_at_end(head, rows);
    assert forall|k: int| 0 <= k < r.cases.len() implies occurs(
        t,
        case_row(#[trigger] r.cases[k], color),
    ) by {
        lemma_case_rows(r.cases, color, k);
        lemma_part_of_part(case_row(r.cases[k], color), rows, a);
        lemma_part_of_part(case_row(r.cases[k], color), a, t);
    }
    assert forall|k: int| 0 <= k < r.by_tag.len() implies occurs(
        t,
        tag_row(#[trigger] r.by_tag[k], color),
    ) by {
        lemma_tag_rows(r.by_tag, color, k);
        lemma_part_at_end(
            "\n"@ + inked("By tag"@, Ink::Bold, color) + "\n"@ + inked(
                tag_heading(),
                Ink::Dimmed,
                color,
            ) + "\n"@,
            tag_rows(r.by_tag, color),
        );
        lemma_part_of_part(tag_row(r.by_tag[k], color), tag_rows(r.by_tag, color), c);
        lemma_part_of_part(tag_row(r.by_tag[k], color), c, t);
    }
}

proof fn lemma_case_rows(cases: Seq<CaseFiguresView>, color: bool, k: int)
    requires
        0 <= k < cases.len(),
    ensures
        occurs(case_rows(cases, color), case_row(cases[k], color)),
    decreases cases.len(),
{
    let head = case_rows(cases.drop_last(), color);
    if k < cases.len() - 1 {
        lemma_case_rows(cases.drop_last(), color, k);
        lemma_part_stays(head, case_row(cases[k], color), case_row(cases.last(), color));
    } else {
        lemma_part_at_end(head, case_row(cases[k], color));
    }
}

proof fn lemma_tag_rows(tags: Seq<TagFiguresView>, color: bool, k: int)
    requires
        0 <= k < tags.len(),
    ensures
        occurs(tag_rows(tags, color), tag_row(tags[k], color)),
    decreases tags.len(),
{
    let head = tag_rows(tags.drop_last(), color);
    if k < tags.len() - 1 {
        lemma_tag_rows(tags.drop_last(), color, k);
        lemma_part_stays(head, tag_row(tags[k], color), tag_row(tags.last(), color));
    } else {
        lemma_part_at_end(head, tag_row(tags[k], color));
    }
}

} // verus!
