//! Architectural decisions: the registry of authored decisions, how they link
//! to one another, and how one becomes an embeddable item.
use vstd::prelude::*;

use crate::hash::{short_hash, short_hash_of};
use crate::rank::{ints, law_ranked, law_ranked_lists_stay, places, rank, ranked};
use crate::tap::{SourceChunk, SourceChunkView, SourceItem, SourceItemView};
use crate::text::{
    decimal, digits_value, has_prefix, is_blank, is_white, law_trimming_takes_only_whitespace,
    lemma_decimal_value, lemma_leading_zeros, lemma_part_at_end, lemma_part_of_part,
    lemma_part_stays, lemma_part_survives_trimming, lemma_trimmed_end_white, lemma_trimmed_is_part,
    lowered, occurs, same, show_u64, to_ascii_lowercase, trim, trim_end, trimmed, trimmed_end,
};

verus! {

/// URI scheme of a decision's `source_path`: the tap's name and `://`, so that
/// a URI leads back to the decision namespace.
pub const SOURCE_SCHEME: &'static str = "decision://";

/// Name of the pseudo-tap whose namespace holds the decisions.
pub const TAP_NAME: &'static str = "decision";

/// Key under which a namespace's metadata holds the registry.
pub const REGISTRY_META_KEY: &'static str = "decisions";

/// `s` padded with leading zeros to `width` characters.
pub open spec fn zero_padded(s: Seq<char>, width: nat) -> Seq<char> {
    if s.len() >= width {
        s
    } else {
        Seq::new((width - s.len()) as nat, |i: int| '0') + s
    }
}

/// The URI of a decision: the scheme and its id, at least four digits wide.
pub open spec fn uri_of(id: u32) -> Seq<char> {
    "decision://"@ + zero_padded(decimal(id as nat), 4)
}

/// The stable URI of a decision id, such as `decision://0007`.
pub fn decision_uri(id: u32) -> (r: String)
    ensures
        r@ == uri_of(id),
{
    let digits = show_u64(id as u64);
    let mut zeros: usize = digits.as_str().unicode_len();
    let mut r = SOURCE_SCHEME.to_string();
    let ghost base = r@;
    let ghost n0 = zeros;
    while zeros < 4
        invariant
            n0 == digits@.len(),
            n0 <= zeros,
            zeros <= 4 || zeros == n0,
            r@ == base + Seq::new((zeros - n0) as nat, |i: int| '0'),
        decreases 4 - zeros,
    {
        r.push('0');
        zeros += 1;
        assert(r@ =~= base + Seq::new((zeros - n0) as nat, |i: int| '0'));
    }
    r.append(digits.as_str());
    assert(r@ =~= uri_of(id));
    r
}

/// Lifecycle of a decision. Proposed and accepted ones take part in recall;
/// superseded and deprecated ones stay in the store and are reached by links.
#[derive(Clone, Copy, PartialEq, Eq, Structural, Debug)]
pub enum DecisionStatus {
    Proposed,
    Accepted,
    Superseded,
    Deprecated,
}

impl DeepView for DecisionStatus {
    type V = DecisionStatus;

    open spec fn deep_view(&self) -> DecisionStatus {
        *self
    }
}

impl Default for DecisionStatus {
    /// A decision is accepted unless it says otherwise.
    fn default() -> (r: DecisionStatus)
        ensures
            r == DecisionStatus::Accepted,
    {
        DecisionStatus::Accepted
    }
}

/// A text that names no status.
#[derive(Debug)]
pub struct UnknownStatus {
    /// The text, trimmed and in lower case.
    pub given: String,
}

impl UnknownStatus {
    /// The error in words.
    pub fn message(&self) -> (r: String)
        ensures
            r@ == "unknown decision status '"@ + self.given@
                + "' (expected proposed|accepted|superseded|deprecated)"@,
    {
        let mut r = "unknown decision status '".to_string();
        r.append(self.given.as_str());
        r.append("' (expected proposed|accepted|superseded|deprecated)");
        r
    }
}

impl DecisionStatus {
    /// Whether the status takes part in recall.
    pub open spec fn recalled(self) -> bool {
        self == DecisionStatus::Proposed || self == DecisionStatus::Accepted
    }

    /// The status in words.
    pub open spec fn name(self) -> Seq<char> {
        match self {
            DecisionStatus::Proposed => "proposed"@,
            DecisionStatus::Accepted => "accepted"@,
            DecisionStatus::Superseded => "superseded"@,
            DecisionStatus::Deprecated => "deprecated"@,
        }
    }

    /// Whether this status takes part in active recall.
    pub fn is_active(self) -> (r: bool)
        ensures
            r == self.recalled(),
    {
        match self {
            DecisionStatus::Proposed | DecisionStatus::Accepted => true,
            _ => false,
        }
    }

    /// The status as text.
    pub fn as_str(self) -> (r: &'static str)
        ensures
            r@ == self.name(),
    {
        match self {
            DecisionStatus::Proposed => "proposed",
            DecisionStatus::Accepted => "accepted",
            DecisionStatus::Superseded => "superseded",
            DecisionStatus::Deprecated => "deprecated",
        }
    }

    /// Reads a status, whatever its case and the whitespace around it.
    pub fn from_str(s: &str) -> (r: Result<DecisionStatus, UnknownStatus>)
        ensures
            match r {
                Ok(status) => status.name() == lowered(trimmed(s@)),
                Err(e) => e.given@ == lowered(trimmed(s@)) && forall|status: DecisionStatus|
                    #[trigger] status.name() != lowered(trimmed(s@)),
            },
    {
        let t = trim(s);
        let l = to_ascii_lowercase(t.as_str());
        if same(l.as_str(), "proposed") {
            Ok(DecisionStatus::Proposed)
        } else if same(l.as_str(), "accepted") {
            Ok(DecisionStatus::Accepted)
        } else if same(l.as_str(), "superseded") {
            Ok(DecisionStatus::Superseded)
        } else if same(l.as_str(), "deprecated") {
            Ok(DecisionStatus::Deprecated)
        } else {
            Err(UnknownStatus { given: l })
        }
    }
}

/// A pulled provenance source: the URI it came from and a snapshot of its
/// content at that time.
#[derive(Debug)]
pub struct SourceRef {
    pub uri: String,
    pub snapshot: String,
}

/// What a [`SourceRef`] holds.
#[verifier::ext_equal]
pub struct SourceRefView {
    pub uri: Seq<char>,
    pub snapshot: Seq<char>,
}

impl DeepView for SourceRef {
    type V = SourceRefView;

    open spec fn deep_view(&self) -> SourceRefView {
        SourceRefView {
            uri: self.uri@,
            snapshot: self.snapshot@,
        }
    }
}

impl Clone for SourceRef {
    fn clone(&self) -> (r: Self)
        ensures
            r.deep_view() == self.deep_view(),
    {
        SourceRef {
            uri: self.uri.clone(),
            snapshot: self.snapshot.clone(),
        }
    }
}

/// One decision: the source of truth of its content and metadata.
#[derive(Debug)]
pub struct DecisionEntry {
    pub id: u32,
    pub title: String,
    pub status: DecisionStatus,
    /// Who made the decision.
    pub author: String,
    /// Unix seconds when created.
    pub date: i64,
    pub updated_at: Option<i64>,
    pub context: Option<String>,
    pub decision: Option<String>,
    pub consequences: Option<String>,
    pub sources: Vec<SourceRef>,
    /// Globs of the code paths this decision governs.
    pub areas: Vec<String>,
    /// Decisions this one replaces.
    pub supersedes: Vec<u32>,
    /// Decisions this one wins over in overlapping areas.
    pub overrides: Vec<u32>,
    pub relates_to: Vec<u32>,
    /// The decision that superseded this one, if any.
    pub superseded_by: Option<u32>,
}

/// What a [`DecisionEntry`] holds.
#[verifier::ext_equal]
pub struct DecisionEntryView {
    pub id: u32,
    pub title: Seq<char>,
    pub status: DecisionStatus,
    pub author: Seq<char>,
    pub date: i64,
    pub updated_at: Option<i64>,
    pub context: Option<Seq<char>>,
    pub decision: Option<Seq<char>>,
    pub consequences: Option<Seq<char>>,
    pub sources: Seq<SourceRefView>,
    pub areas: Seq<Seq<char>>,
    pub supersedes: Seq<u32>,
    pub overrides: Seq<u32>,
    pub relates_to: Seq<u32>,
    pub superseded_by: Option<u32>,
}

impl DeepView for DecisionEntry {
    type V = DecisionEntryView;

    open spec fn deep_view(&self) -> DecisionEntryView {
        DecisionEntryView {
            id: self.id,
            title: self.title@,
            status: self.status,
            author: self.author@,
            date: self.date,
            updated_at: self.updated_at.deep_view(),
            context: self.context.deep_view(),
            decision: self.decision.deep_view(),
            consequences: self.consequences.deep_view(),
            sources: self.sources.deep_view(),
            areas: self.areas.deep_view(),
            supersedes: self.supersedes.deep_view(),
            overrides: self.overrides.deep_view(),
            relates_to: self.relates_to.deep_view(),
            superseded_by: self.superseded_by.deep_view(),
        }
    }
}

impl Clone for DecisionEntry {
    fn clone(&self) -> (r: Self)
        ensures
            r.deep_view() == self.deep_view(),
    {
        DecisionEntry {
            id: self.id,
            title: self.title.clone(),
            status: self.status,
            author: self.author.clone(),
            date: self.date,
            updated_at: self.updated_at,
            context: self.context.clone(),
            decision: self.decision.clone(),
            consequences: self.consequences.clone(),
            sources: self.sources.clone(),
            areas: self.areas.clone(),
            supersedes: self.supersedes.clone(),
            overrides: self.overrides.clone(),
            relates_to: self.relates_to.clone(),
            superseded_by: self.superseded_by,
        }
    }
}

/// All decisions of a namespace.
#[derive(Debug)]
pub struct DecisionRegistry {
    pub decisions: Vec<DecisionEntry>,
}

/// What a [`DecisionRegistry`] holds.
#[verifier::ext_equal]
pub struct DecisionRegistryView {
    pub decisions: Seq<DecisionEntryView>,
}

impl DeepView for DecisionRegistry {
    type V = DecisionRegistryView;

    open spec fn deep_view(&self) -> DecisionRegistryView {
        DecisionRegistryView {
            decisions: self.decisions.deep_view(),
        }
    }
}

impl Clone for DecisionRegistry {
    fn clone(&self) -> (r: Self)
        ensures
            r.deep_view() == self.deep_view(),
    {
        DecisionRegistry {
            decisions: self.decisions.clone(),
        }
    }
}

/// A named part of a decision's body.
#[verifier::ext_equal]
pub struct SectionView {
    pub name: Seq<char>,
    pub content: Seq<char>,
}

/// The text of an optional part.
pub open spec fn text_or_empty(t: Option<Seq<char>>) -> Seq<char> {
    match t {
        Some(s) => s,
        None => ""@,
    }
}

/// The parts of a decision's body in order, empty ones included.
pub open spec fn parts_of(e: DecisionEntryView) -> Seq<SectionView> {
    seq![
        SectionView { name: "Context"@, content: text_or_empty(e.context) },
        SectionView { name: "Decision"@, content: text_or_empty(e.decision) },
        SectionView { name: "Consequences"@, content: text_or_empty(e.consequences) },
    ] + e.sources.map_values(
        |s: SourceRefView| SectionView { name: "Source: "@ + s.uri, content: s.snapshot },
    )
}

/// The headed markdown of the parts that hold more than whitespace.
pub open spec fn sections_text(parts: Seq<SectionView>) -> Seq<char>
    decreases parts.len(),
{
    if parts.len() == 0 {
        Seq::<char>::empty()
    } else {
        let head = sections_text(parts.drop_last());
        let p = parts.last();
        if trimmed(p.content).len() == 0 {
            head
        } else {
            head + "## "@ + p.name + "\n"@ + trimmed(p.content) + "\n\n"@
        }
    }
}

/// A section as a chunk of the item.
pub open spec fn section_chunk(p: SectionView) -> SourceChunkView {
    SourceChunkView {
        name: p.name,
        kind: "section"@,
        content: trimmed(p.content),
        signature: None,
        doc_comment: None,
        start_line: None,
        end_line: None,
        references: Seq::<Seq<char>>::empty(),
    }
}

/// The chunks of the parts that hold more than whitespace.
pub open spec fn section_chunks(parts: Seq<SectionView>) -> Seq<SourceChunkView>
    decreases parts.len(),
{
    if parts.len() == 0 {
        Seq::<SourceChunkView>::empty()
    } else if trimmed(parts.last().content).len() == 0 {
        section_chunks(parts.drop_last())
    } else {
        section_chunks(parts.drop_last()).push(section_chunk(parts.last()))
    }
}

/// A decision's markdown body.
pub open spec fn body_of(e: DecisionEntryView) -> Seq<char> {
    trimmed_end("# "@ + e.title + "\n\n"@ + sections_text(parts_of(e)))
}

/// A decision as an embeddable item.
pub open spec fn item_of(e: DecisionEntryView) -> SourceItemView {
    SourceItemView {
        source_path: uri_of(e.id),
        content: body_of(e),
        content_hash: short_hash_of(body_of(e), 16),
        language: None,
        module_doc: None,
        children: section_chunks(parts_of(e)),
    }
}

/// Adds a part to a body and its chunks, unless it is blank.
fn add_section(
    name: &str,
    content: &str,
    body: &mut String,
    children: &mut Vec<SourceChunk>,
    Ghost(start): Ghost<Seq<char>>,
    Ghost(parts): Ghost<Seq<SectionView>>,
)
    requires
        old(body)@ == start + sections_text(parts),
        old(children).deep_view() == section_chunks(parts),
    ensures
        final(body)@ == start + sections_text(
            parts.push(SectionView { name: name@, content: content@ }),
        ),
        final(children).deep_view() == section_chunks(
            parts.push(SectionView { name: name@, content: content@ }),
        ),
{
    let ghost p = SectionView { name: name@, content: content@ };
    assert(parts.push(p).drop_last() =~= parts);
    let t = trim(content);
    if is_blank(content) {
        return ;
    }
    body.append("## ");
    body.append(name);
    body.append("\n");
    body.append(t.as_str());
    body.append("\n\n");
    assert(body@ =~= start + sections_text(parts.push(p)));
    let none: Vec<String> = Vec::new();
    assert(none.deep_view() =~= Seq::<Seq<char>>::empty());
    let chunk = SourceChunk {
        name: name.to_string(),
        kind: "section".to_string(),
        content: t,
        signature: None,
        doc_comment: None,
        start_line: None,
        end_line: None,
        references: none,
    };
    assert(chunk.deep_view() == section_chunk(p));
    let ghost c0 = children.deep_view();
    children.push(chunk);
    assert(children.deep_view() =~= c0.push(section_chunk(p)));
}

fn or_empty(t: &Option<String>) -> (r: &str)
    ensures
        r@ == text_or_empty(t.deep_view()),
{
    match t {
        Some(s) => s.as_str(),
        None => "",
    }
}

impl DecisionEntry {
    /// The decision's URI.
    pub fn uri(&self) -> (r: String)
        ensures
            r@ == uri_of(self.id),
    {
        decision_uri(self.id)
    }

    /// The provenance URIs, without snapshots.
    pub fn source_uris(&self) -> (r: Vec<String>)
        ensures
            r.deep_view() == self.deep_view().sources.map_values(|s: SourceRefView| s.uri),
    {
        let ghost want = self.deep_view().sources.map_values(|s: SourceRefView| s.uri);
        let mut out: Vec<String> = Vec::new();
        let mut i: usize = 0;
        while i < self.sources.len()
            invariant
                i <= self.sources@.len(),
                want == self.deep_view().sources.map_values(|s: SourceRefView| s.uri),
                out.deep_view() == want.take(i as int),
            decreases self.sources@.len() - i,
        {
            let ghost before = out.deep_view();
            out.push(self.sources[i].uri.clone());
            assert(out.deep_view() =~= before.push(self.sources@[i as int].uri@));
            assert(want.take(i + 1) =~= want.take(i as int).push(want[i as int]));
            i += 1;
        }
        assert(want.take(i as int) =~= want);
        out
    }

    /// The decision as an item: a markdown body under its URI, with one section
    /// child per part that holds text (context, decision, consequences, each
    /// source).
    pub fn to_source_item(&self) -> (r: SourceItem)
        ensures
            r.deep_view() == item_of(self.deep_view()),
    {
        let ghost e = self.deep_view();
        let ghost parts = parts_of(e);
        let mut children: Vec<SourceChunk> = Vec::new();
        let mut body = "# ".to_string();
        body.append(self.title.as_str());
        body.append("\n\n");
        let ghost start = body@;
        proof {
            assert(parts.take(0) =~= Seq::<SectionView>::empty());
            assert(start + Seq::<char>::empty() =~= start);
            assert(children.deep_view() =~= section_chunks(parts.take(0)));
            assert(parts.take(0).push(parts[0]) =~= parts.take(1));
            assert(parts.take(1).push(parts[1]) =~= parts.take(2));
            assert(parts.take(2).push(parts[2]) =~= parts.take(3));
        }
        add_section(
            "Context",
            or_empty(&self.context),
            &mut body,
            &mut children,
            Ghost(start),
            Ghost(parts.take(0)),
        );
        add_section(
            "Decision",
            or_empty(&self.decision),
            &mut body,
            &mut children,
            Ghost(start),
            Ghost(parts.take(1)),
        );
        add_section(
            "Consequences",
            or_empty(&self.consequences),
            &mut body,
            &mut children,
            Ghost(start),
            Ghost(parts.take(2)),
        );
        let mut i: usize = 0;
        while i < self.sources.len()
            invariant
                i <= self.sources@.len(),
                e == self.deep_view(),
                parts == parts_of(e),
                body@ == start + sections_text(parts.take(3 + i)),
                children.deep_view() == section_chunks(parts.take(3 + i)),
            decreases self.sources@.len() - i,
        {
            let mut name = "Source: ".to_string();
            name.append(self.sources[i].uri.as_str());
            proof {
                assert(e.sources[i as int] == self.sources@[i as int].deep_view());
                assert(parts[3 + i] == SectionView {
                    name: name@,
                    content: self.sources@[i as int].snapshot@,
                });
                assert(parts.take(3 + i).push(parts[3 + i]) =~= parts.take(3 + i + 1));
            }
            add_section(
                name.as_str(),
                self.sources[i].snapshot.as_str(),
                &mut body,
                &mut children,
                Ghost(start),
                Ghost(parts.take(3 + i)),
            );
            i += 1;
        }
        assert(parts.take(3 + i) =~= parts);
        let content = trim_end(body.as_str());
        let content_hash = short_hash(content.as_str(), 16);
        SourceItem {
            source_path: self.uri(),
            content,
            content_hash,
            language: None,
            module_doc: None,
            children,
        }
    }
}

/// The first position of a decision of that id.
pub open spec fn position_of(ds: Seq<DecisionEntryView>, id: u32) -> Option<int>
    decreases ds.len(),
{
    if ds.len() == 0 {
        None
    } else {
        match position_of(ds.drop_last(), id) {
            Some(p) => Some(p),
            None => if ds.last().id == id {
                Some(ds.len() - 1)
            } else {
                None
            },
        }
    }
}

/// The first decision of that id.
pub open spec fn lookup(ds: Seq<DecisionEntryView>, id: u32) -> Option<DecisionEntryView> {
    match position_of(ds, id) {
        Some(p) => Some(ds[p]),
        None => None,
    }
}

proof fn lemma_position_of(ds: Seq<DecisionEntryView>, id: u32)
    ensures
        match position_of(ds, id) {
            Some(p) => 0 <= p < ds.len() && ds[p].id == id && forall|j: int|
                0 <= j < p ==> (#[trigger] ds[j]).id != id,
            None => forall|j: int| 0 <= j < ds.len() ==> (#[trigger] ds[j]).id != id,
        },
    decreases ds.len(),
{
    if ds.len() > 0 {
        lemma_position_of(ds.drop_last(), id);
        assert(forall|j: int| 0 <= j < ds.len() - 1 ==> ds.drop_last()[j] == ds[j]);
    }
}

proof fn lemma_position_unique(ds: Seq<DecisionEntryView>, id: u32, p: int)
    requires
        0 <= p < ds.len(),
        ds[p].id == id,
        forall|j: int| 0 <= j < p ==> (#[trigger] ds[j]).id != id,
    ensures
        position_of(ds, id) == Some(p),
{
    lemma_position_of(ds, id);
}

/// The keys by which a registry is put in order of ascending ids.
pub open spec fn id_keys(ds: Seq<DecisionEntryView>) -> Seq<int> {
    ds.map_values(|d: DecisionEntryView| -(d.id as int))
}

/// The decisions in ascending order of their ids.
pub open spec fn by_id(ds: Seq<DecisionEntryView>) -> Seq<DecisionEntryView> {
    ranked(id_keys(ds)).map_values(|p: int| ds[p])
}

/// The decisions with `e` in place of the first one of its id, or at the end.
pub open spec fn put(ds: Seq<DecisionEntryView>, e: DecisionEntryView) -> Seq<DecisionEntryView> {
    match position_of(ds, e.id) {
        Some(p) => ds.update(p, e),
        None => ds.push(e),
    }
}

/// Whether the ids ascend, each once.
pub open spec fn ids_ascend(ds: Seq<DecisionEntryView>) -> bool {
    forall|i: int, j: int| 0 <= i < j < ds.len() ==> (#[trigger] ds[i]).id < (#[trigger] ds[j]).id
}

/// Whether no two decisions share an id.
pub open spec fn ids_differ(ds: Seq<DecisionEntryView>) -> bool {
    forall|i: int, j: int| 0 <= i < j < ds.len() ==> (#[trigger] ds[i]).id != (#[trigger] ds[j]).id
}

/// The ids other than `id`.
pub open spec fn other_than(id: u32) -> spec_fn(u32) -> bool {
    |x: u32| x != id
}

/// A list of ids without `id`.
pub open spec fn without(ids: Seq<u32>, id: u32) -> Seq<u32> {
    ids.filter(other_than(id))
}

/// A decision without its links to `id`.
pub open spec fn scrubbed(e: DecisionEntryView, id: u32) -> DecisionEntryView {
    DecisionEntryView {
        supersedes: without(e.supersedes, id),
        overrides: without(e.overrides, id),
        relates_to: without(e.relates_to, id),
        superseded_by: if e.superseded_by == Some(id) {
            None
        } else {
            e.superseded_by
        },
        ..e
    }
}

/// All decisions without their links to `id`.
pub open spec fn all_scrubbed(ds: Seq<DecisionEntryView>, id: u32) -> Seq<DecisionEntryView> {
    ds.map_values(|e: DecisionEntryView| scrubbed(e, id))
}

/// The registry after a removal: without the decision, and without links to it.
pub open spec fn removed(ds: Seq<DecisionEntryView>, id: u32) -> Seq<DecisionEntryView> {
    match position_of(ds, id) {
        Some(p) => all_scrubbed(ds.remove(p), id),
        None => ds,
    }
}

/// The registry once `old` is superseded by `by`.
pub open spec fn with_superseded(
    ds: Seq<DecisionEntryView>,
    old_id: u32,
    by: u32,
) -> Seq<DecisionEntryView> {
    match position_of(ds, old_id) {
        Some(p) => ds.update(
            p,
            DecisionEntryView {
                status: DecisionStatus::Superseded,
                superseded_by: Some(by),
                ..ds[p]
            },
        ),
        None => ds,
    }
}

/// The greatest id, or zero where there is none.
pub open spec fn max_id(ds: Seq<DecisionEntryView>) -> u32
    decreases ds.len(),
{
    if ds.len() == 0 {
        0
    } else if ds.last().id > max_id(ds.drop_last()) {
        ds.last().id
    } else {
        max_id(ds.drop_last())
    }
}

fn drop_id(ids: &Vec<u32>, id: u32) -> (r: Vec<u32>)
    ensures
        r.deep_view() == without(ids.deep_view(), id),
{
    let ghost p = other_than(id);
    let mut out: Vec<u32> = Vec::new();
    let mut i: usize = 0;
    proof {
        reveal(Seq::filter);
        assert(out@ =~= ids@.take(0).filter(p));
    }
    while i < ids.len()
        invariant
            i <= ids@.len(),
            p == other_than(id),
            out@ == ids@.take(i as int).filter(p),
        decreases ids@.len() - i,
    {
        proof {
            reveal(Seq::filter);
            assert(ids@.take(i + 1).drop_last() =~= ids@.take(i as int));
        }
        if ids[i] != id {
            out.push(ids[i]);
        }
        i += 1;
    }
    assert(ids@.take(i as int) =~= ids@);
    assert(ids.deep_view() =~= ids@);
    assert(out.deep_view() =~= out@);
    out
}

impl Default for DecisionRegistry {
    /// A registry without decisions.
    fn default() -> (r: DecisionRegistry)
        ensures
            r.decisions@.len() == 0,
    {
        DecisionRegistry { decisions: Vec::new() }
    }
}

impl DecisionRegistry {
    /// The first position of a decision of that id.
    fn position(&self, id: u32) -> (r: Option<usize>)
        ensures
            match r {
                Some(p) => position_of(self.decisions.deep_view(), id) == Some(p as int) && p
                    < self.decisions@.len(),
                None => position_of(self.decisions.deep_view(), id) is None,
            },
    {
        let ghost ds = self.decisions.deep_view();
        let mut i: usize = 0;
        while i < self.decisions.len()
            invariant
                i <= self.decisions@.len(),
                ds == self.decisions.deep_view(),
                forall|j: int| 0 <= j < i ==> (#[trigger] ds[j]).id != id,
            decreases self.decisions@.len() - i,
        {
            assert(ds[i as int] == self.decisions@[i as int].deep_view());
            if self.decisions[i].id == id {
                proof {
                    lemma_position_unique(ds, id, i as int);
                }
                return Some(i);
            }
            i += 1;
        }
        proof {
            lemma_position_of(ds, id);
        }
        None
    }

    /// The next free id: one more than the greatest. Ids start at 1.
    pub fn next_id(&self) -> (r: u32)
        requires
            max_id(self.decisions.deep_view()) < u32::MAX,
        ensures
            r == max_id(self.decisions.deep_view()) + 1,
    {
        let ghost ds = self.decisions.deep_view();
        let mut m: u32 = 0;
        let mut i: usize = 0;
        while i < self.decisions.len()
            invariant
                i <= self.decisions@.len(),
                ds == self.decisions.deep_view(),
                m == max_id(ds.take(i as int)),
            decreases self.decisions@.len() - i,
        {
            assert(ds.take(i + 1).drop_last() =~= ds.take(i as int));
            assert(ds.take(i + 1).last() == self.decisions@[i as int].deep_view());
            if self.decisions[i].id > m {
                m = self.decisions[i].id;
            }
            i += 1;
        }
        assert(ds.take(i as int) =~= ds);
        m + 1
    }

    /// The decision of that id.
    pub fn get(&self, id: u32) -> (r: Option<&DecisionEntry>)
        ensures
            r.deep_view() == lookup(self.decisions.deep_view(), id),
    {
        match self.position(id) {
            Some(p) => Some(&self.decisions[p]),
            None => None,
        }
    }

    /// The decision of that id, for changing it in place.
    pub fn get_mut(&mut self, id: u32) -> (r: Option<&mut DecisionEntry>)
        ensures
            match r {
                Some(e) => ({
                    let p = position_of(old(self).decisions.deep_view(), id)->0;
                    &&& position_of(old(self).decisions.deep_view(), id) is Some
                    &&& 0 <= p < old(self).decisions@.len()
                    &&& *e == old(self).decisions@[p]
                    &&& final(self).decisions@ == old(self).decisions@.update(p, *final(e))
                }),
                None => position_of(old(self).decisions.deep_view(), id) is None && *final(self)
                    == *old(self),
            },
    {
        match self.position(id) {
            Some(p) => Some(&mut self.decisions[p]),
            None => None,
        }
    }

    /// Puts the decisions in ascending order of their ids.
    fn sort(&mut self)
        ensures
            final(self).decisions.deep_view() == by_id(old(self).decisions.deep_view()),
    {
        let ghost ds = self.decisions.deep_view();
        let mut keys: Vec<i64> = Vec::new();
        let mut i: usize = 0;
        while i < self.decisions.len()
            invariant
                i <= self.decisions@.len(),
                ds == self.decisions.deep_view(),
                keys@.len() == i,
                forall|j: int| 0 <= j < i ==> #[trigger] keys@[j] == -(ds[j].id as int),
            decreases self.decisions@.len() - i,
        {
            keys.push(-(self.decisions[i].id as i64));
            i += 1;
        }
        assert(ints(keys@) =~= id_keys(ds));
        let order = rank(&keys);
        let ghost want = by_id(ds);
        let mut out: Vec<DecisionEntry> = Vec::new();
        let mut k: usize = 0;
        while k < order.len()
            invariant
                k <= order@.len(),
                ds == self.decisions.deep_view(),
                ds.len() == order@.len(),
                places(order@) == ranked(id_keys(ds)),
                want == by_id(ds),
                forall|j: int| 0 <= j < order@.len() ==> #[trigger] order@[j] < ds.len(),
                out.deep_view() == want.take(k as int),
            decreases order@.len() - k,
        {
            let ghost before = out.deep_view();
            let d = self.decisions[order[k]].clone();
            out.push(d);
            proof {
                assert(places(order@)[k as int] == order@[k as int]);
                assert(out.deep_view() =~= before.push(d.deep_view()));
                assert(want.take(k + 1) =~= want.take(k as int).push(want[k as int]));
            }
            k += 1;
        }
        assert(want.take(k as int) =~= want);
        self.decisions = out;
    }

    /// Inserts or replaces a decision, keeping the list sorted by id.
    pub fn upsert(&mut self, entry: DecisionEntry)
        ensures
            final(self).decisions.deep_view() == by_id(
                put(old(self).decisions.deep_view(), entry.deep_view()),
            ),
    {
        let ghost ds = self.decisions.deep_view();
        let ghost e = entry.deep_view();
        match self.position(entry.id) {
            Some(p) => {
                self.decisions.set(p, entry);
            },
            None => {
                self.decisions.push(entry);
            },
        }
        assert(self.decisions.deep_view() =~= put(ds, e));
        self.sort();
    }

    /// Removes a decision and every link to it, and returns it.
    pub fn remove(&mut self, id: u32) -> (r: Option<DecisionEntry>)
        ensures
            r.deep_view() == lookup(old(self).decisions.deep_view(), id),
            final(self).decisions.deep_view() == removed(old(self).decisions.deep_view(), id),
    {
        let ghost ds = self.decisions.deep_view();
        match self.position(id) {
            Some(p) => {
                let e = self.decisions.remove(p);
                assert(self.decisions.deep_view() =~= ds.remove(p as int));
                self.scrub_links(id);
                Some(e)
            },
            None => None,
        }
    }

    /// Drops all links to `id`.
    pub fn scrub_links(&mut self, id: u32)
        ensures
            final(self).decisions.deep_view() == all_scrubbed(
                old(self).decisions.deep_view(),
                id,
            ),
    {
        let ghost ds = self.decisions.deep_view();
        let n: usize = self.decisions.len();
        let mut i: usize = 0;
        while i < n
            invariant
                i <= n,
                n == self.decisions@.len(),
                n == ds.len(),
                forall|j: int|
                    0 <= j < i ==> (#[trigger] self.decisions@[j]).deep_view() == scrubbed(
                        ds[j],
                        id,
                    ),
                forall|j: int|
                    i <= j < n ==> (#[trigger] self.decisions@[j]).deep_view() == ds[j],
            decreases n - i,
        {
            let mut d = self.decisions[i].clone();
            assert(d.deep_view() == ds[i as int]);
            d.supersedes = drop_id(&d.supersedes, id);
            d.overrides = drop_id(&d.overrides, id);
            d.relates_to = drop_id(&d.relates_to, id);
            if let Some(by) = d.superseded_by {
                if by == id {
                    d.superseded_by = None;
                }
            }
            assert(d.deep_view() =~= scrubbed(ds[i as int], id));
            self.decisions.set(i, d);
            i += 1;
        }
    }

    /// Marks `old_id` as superseded by `by`.
    pub fn mark_superseded(&mut self, old_id: u32, by: u32)
        ensures
            final(self).decisions.deep_view() == with_superseded(
                old(self).decisions.deep_view(),
                old_id,
                by,
            ),
    {
        let ghost ds = self.decisions.deep_view();
        if let Some(p) = self.position(old_id) {
            let mut d = self.decisions[p].clone();
            d.status = DecisionStatus::Superseded;
            d.superseded_by = Some(by);
            let ghost dv = d.deep_view();
            self.decisions.set(p, d);
            assert(self.decisions.deep_view() =~= ds.update(p as int, dv));
        }
    }

    /// The decisions that take part in recall.
    pub fn active(&self) -> (r: Vec<&DecisionEntry>)
        ensures
            r.deep_view() == self.decisions.deep_view().filter(
                |d: DecisionEntryView| d.status.recalled(),
            ),
    {
        let ghost ds = self.decisions.deep_view();
        let ghost p = |d: DecisionEntryView| d.status.recalled();
        let mut out: Vec<&DecisionEntry> = Vec::new();
        let mut i: usize = 0;
        proof {
            reveal(Seq::filter);
            assert(out.deep_view() =~= ds.take(0).filter(p));
        }
        while i < self.decisions.len()
            invariant
                i <= self.decisions@.len(),
                ds == self.decisions.deep_view(),
                p == (|d: DecisionEntryView| d.status.recalled()),
                out.deep_view() == ds.take(i as int).filter(p),
            decreases self.decisions@.len() - i,
        {
            let ghost before = out.deep_view();
            proof {
                reveal(Seq::filter);
                assert(ds.take(i + 1).drop_last() =~= ds.take(i as int));
                assert(ds.take(i + 1).last() == self.decisions@[i as int].deep_view());
            }
            if self.decisions[i].status.is_active() {
                out.push(&self.decisions[i]);
                assert(out.deep_view() =~= before.push(self.decisions@[i as int].deep_view()));
            }
            i += 1;
        }
        assert(ds.take(i as int) =~= ds);
        out
    }
}

// ---------------------------------------------------------------------------
// Laws
// ---------------------------------------------------------------------------

/// A decision's URI is the tap's name, `://` and the padded id.
pub proof fn law_scheme_is_the_tap_name()
    ensures
        SOURCE_SCHEME@ == TAP_NAME@ + "://"@,
{
    reveal_strlit("decision://");
    reveal_strlit("decision");
    reveal_strlit("://");
    assert(SOURCE_SCHEME@ =~= TAP_NAME@ + "://"@);
}

/// Different decisions have different URIs.
pub proof fn law_uris_differ(a: u32, b: u32)
    requires
        a != b,
    ensures
        uri_of(a) != uri_of(b),
{
    let scheme = "decision://"@;
    assert forall|id: u32| digits_value(#[trigger] uri_of(id).skip(scheme.len() as int)) == id by {
        let digits = decimal(id as nat);
        let padded = zero_padded(digits, 4);
        lemma_decimal_value(id as nat);
        if digits.len() < 4 {
            lemma_leading_zeros(Seq::new((4 - digits.len()) as nat, |i: int| '0'), digits);
        }
        assert(uri_of(id).skip(scheme.len() as int) =~= padded);
    }
    assert(digits_value(uri_of(a).skip(scheme.len() as int)) == a);
    assert(digits_value(uri_of(b).skip(scheme.len() as int)) == b);
}

/// A status is read back from its own name, and no two statuses share one.
pub proof fn law_status_names_read_back(s: DecisionStatus, t: DecisionStatus)
    ensures
        lowered(trimmed(s.name())) == s.name(),
        s.name() == t.name() ==> s == t,
{
    reveal_strlit("proposed");
    reveal_strlit("accepted");
    reveal_strlit("superseded");
    reveal_strlit("deprecated");
    assert(s.name()[0] != t.name()[0] || s == t);
    assert(trimmed(s.name()) =~= s.name());
    assert(lowered(s.name()) =~= s.name());
}

/// The next id is new: no decision has it.
pub proof fn law_next_id_is_free(ds: Seq<DecisionEntryView>, i: int)
    requires
        0 <= i < ds.len(),
    ensures
        ds[i].id <= max_id(ds),
    decreases ds.len(),
{
    if i < ds.len() - 1 {
        law_next_id_is_free(ds.drop_last(), i);
    }
}

proof fn lemma_by_id(ds: Seq<DecisionEntryView>)
    requires
        ids_differ(ds),
    ensures
        ids_ascend(by_id(ds)),
        by_id(ds).len() == ds.len(),
        forall|i: int| 0 <= i < ds.len() ==> ds.contains(#[trigger] by_id(ds)[i]),
        forall|i: int| 0 <= i < ds.len() ==> by_id(ds).contains(#[trigger] ds[i]),
{
    let keys = id_keys(ds);
    let order = ranked(keys);
    let r = by_id(ds);
    law_ranked(keys, keys.len() as int);
    assert forall|i: int, j: int| 0 <= i < j < r.len() implies (#[trigger] r[i]).id < (
    #[trigger] r[j]).id by {
        assert(crate::rank::outranks(keys, order[i], order[j]));
        let p = order[i];
        let q = order[j];
        assert(p != q);
        assert(keys[p] == -(ds[p].id as int));
        assert(keys[q] == -(ds[q].id as int));
        if p < q {
            assert(ds[p].id != ds[q].id);
        } else {
            assert(ds[q].id != ds[p].id);
        }
    }
    assert forall|i: int| 0 <= i < ds.len() implies ds.contains(#[trigger] r[i]) by {
        assert(ds[order[i]] == r[i]);
    }
    assert forall|i: int| 0 <= i < ds.len() implies r.contains(#[trigger] ds[i]) by {
        assert(order.contains(i));
        let k = choose|k: int| 0 <= k < order.len() && order[k] == i;
        assert(r[k] == ds[i]);
    }
}

proof fn lemma_lookup_in(ds: Seq<DecisionEntryView>, e: DecisionEntryView)
    requires
        ids_ascend(ds),
        ds.contains(e),
    ensures
        lookup(ds, e.id) == Some(e),
{
    let i = choose|i: int| 0 <= i < ds.len() && ds[i] == e;
    lemma_position_of(ds, e.id);
    let p = position_of(ds, e.id)->0;
    if p != i {
        if p < i {
            assert(ds[p].id < ds[i].id);
        } else {
            assert(ds[i].id < ds[p].id);
        }
    }
}

/// Inserting or replacing a decision in a registry without repeated ids, in
/// whatever order, leaves it sorted with every id once; the decision is then
/// found under its id, and every other id leads where it led before.
pub proof fn law_upsert(ds: Seq<DecisionEntryView>, e: DecisionEntryView, other: u32)
    requires
        ids_differ(ds),
    ensures
        ids_ascend(by_id(put(ds, e))),
        lookup(by_id(put(ds, e)), e.id) == Some(e),
        other != e.id ==> lookup(by_id(put(ds, e)), other) == lookup(ds, other),
{
    let p = put(ds, e);
    lemma_position_of(ds, e.id);
    lemma_position_of(ds, other);
    assert forall|i: int, j: int| 0 <= i < j < p.len() implies (#[trigger] p[i]).id != (
    #[trigger] p[j]).id by {
        if position_of(ds, e.id) is Some {
            assert(ds[i].id != ds[j].id);
        } else if j < ds.len() {
            assert(ds[i].id != ds[j].id);
        }
    }
    lemma_by_id(p);
    let r = by_id(p);
    let at = match position_of(ds, e.id) {
        Some(q) => q,
        None => ds.len() as int,
    };
    assert(p[at] == e);
    assert(r.contains(p[at]));
    lemma_lookup_in(r, e);
    if other != e.id {
        lemma_position_of(r, other);
        match position_of(ds, other) {
            Some(q) => {
                assert(p[q] == ds[q]);
                assert(r.contains(p[q]));
                lemma_lookup_in(r, ds[q]);
            },
            None => {
                if let Some(k) = position_of(r, other) {
                    assert(p.contains(r[k]));
                    let m = choose|m: int| 0 <= m < p.len() && p[m] == r[k];
                    if m != at {
                        assert(ds[m].id == other);
                    }
                }
            },
        }
    }
}

/// Writing the same decision again changes nothing.
pub proof fn law_upsert_is_idempotent(ds: Seq<DecisionEntryView>, e: DecisionEntryView)
    ensures
        ({
            let once = by_id(put(ds, e));
            by_id(put(once, e)) == once
        }),
{
    let p = put(ds, e);
    let keys = id_keys(p);
    let order = ranked(keys);
    let once = by_id(p);
    lemma_position_of(ds, e.id);
    law_ranked(keys, keys.len() as int);
    let at = match position_of(ds, e.id) {
        Some(q) => q,
        None => ds.len() as int,
    };
    assert(p[at] == e);
    assert(order.contains(at));
    let k = choose|k: int| 0 <= k < order.len() && order[k] == at;
    assert(once[k] == e);
    assert forall|j: int| 0 <= j < k implies (#[trigger] once[j]).id != e.id by {
        assert(crate::rank::outranks(keys, order[j], order[k]));
        let q = order[j];
        assert(keys[q] == -(p[q].id as int));
        assert(keys[at] == -(e.id as int));
        if p[q].id == e.id {
            assert(q < at);
            assert(p[q] == ds[q]);
        }
    }
    lemma_position_of(once, e.id);
    assert(position_of(once, e.id) == Some(k));
    assert(put(once, e) =~= once);
    let ranks = id_keys(once);
    assert forall|i: int, j: int| 0 <= i < j < ranks.len() implies #[trigger] ranks[i]
        >= #[trigger] ranks[j] by {
        assert(crate::rank::outranks(keys, order[i], order[j]));
        assert(ranks[i] == keys[order[i]]);
        assert(ranks[j] == keys[order[j]]);
    }
    law_ranked_lists_stay(ranks, ranks.len() as int);
    assert(by_id(once) =~= once);
}

/// Whether a decision links to `id`.
pub open spec fn links_to(e: DecisionEntryView, id: u32) -> bool {
    e.supersedes.contains(id) || e.overrides.contains(id) || e.relates_to.contains(id)
        || e.superseded_by == Some(id)
}

proof fn lemma_without(ids: Seq<u32>, id: u32)
    ensures
        !without(ids, id).contains(id),
{
    let p = other_than(id);
    if without(ids, id).contains(id) {
        let i = choose|i: int| 0 <= i < ids.filter(p).len() && ids.filter(p)[i] == id;
        ids.lemma_filter_pred(p, i);
    }
}

proof fn lemma_without_stays(ids: Seq<u32>, id: u32)
    ensures
        without(without(ids, id), id) == without(ids, id),
{
    let p = other_than(id);
    let kept = ids.filter(p);
    assert forall|i: int| 0 <= i < kept.len() implies p(#[trigger] kept[i]) by {
        ids.lemma_filter_pred(p, i);
    }
    lemma_filter_all(kept, p);
}

proof fn lemma_filter_all(ids: Seq<u32>, p: spec_fn(u32) -> bool)
    requires
        forall|i: int| 0 <= i < ids.len() ==> p(#[trigger] ids[i]),
    ensures
        ids.filter(p) == ids,
    decreases ids.len(),
{
    reveal(Seq::filter);
    if ids.len() > 0 {
        assert forall|i: int| 0 <= i < ids.drop_last().len() implies p(
            #[trigger] ids.drop_last()[i],
        ) by {
            assert(ids.drop_last()[i] == ids[i]);
        }
        lemma_filter_all(ids.drop_last(), p);
        assert(p(ids[ids.len() - 1]));
        assert(ids.drop_last().push(ids.last()) =~= ids);
    }
    assert(ids.filter(p) =~= ids);
}

/// Scrubbing the links to a decision again changes nothing.
pub proof fn law_scrubbing_is_idempotent(ds: Seq<DecisionEntryView>, id: u32)
    ensures
        all_scrubbed(all_scrubbed(ds, id), id) == all_scrubbed(ds, id),
{
    let once = all_scrubbed(ds, id);
    assert forall|i: int| 0 <= i < ds.len() implies #[trigger] all_scrubbed(once, id)[i]
        == once[i] by {
        lemma_without_stays(ds[i].supersedes, id);
        lemma_without_stays(ds[i].overrides, id);
        lemma_without_stays(ds[i].relates_to, id);
    }
    assert(all_scrubbed(once, id) =~= once);
}

/// After a removal from a registry without repeated ids no decision has the id,
/// and none links to it; every other decision is still there, ids stay distinct,
/// and a sorted registry stays sorted.
pub proof fn law_remove_leaves_no_trace(ds: Seq<DecisionEntryView>, id: u32)
    requires
        ids_differ(ds),
        position_of(ds, id) is Some,
    ensures
        lookup(removed(ds, id), id) is None,
        removed(ds, id).len() == ds.len() - 1,
        forall|i: int|
            0 <= i < removed(ds, id).len() ==> !links_to(#[trigger] removed(ds, id)[i], id),
        forall|i: int|
            0 <= i < ds.len() && (#[trigger] ds[i]).id != id ==> removed(ds, id).contains(
                scrubbed(ds[i], id),
            ),
        ids_differ(removed(ds, id)),
        ids_ascend(ds) ==> ids_ascend(removed(ds, id)),
{
    lemma_position_of(ds, id);
    let p = position_of(ds, id)->0;
    let r = removed(ds, id);
    assert forall|j: int| 0 <= j < r.len() implies (#[trigger] r[j]).id != id by {
        if j >= p {
            assert(r[j].id == ds[j + 1].id);
            assert(ds[p].id != ds[j + 1].id);
        } else {
            assert(r[j].id == ds[j].id);
        }
    }
    lemma_position_of(r, id);
    assert forall|i: int| 0 <= i < r.len() implies !links_to(#[trigger] r[i], id) by {
        let e = ds.remove(p)[i];
        lemma_without(e.supersedes, id);
        lemma_without(e.overrides, id);
        lemma_without(e.relates_to, id);
    }
    assert forall|i: int| 0 <= i < ds.len() && (#[trigger] ds[i]).id != id implies r.contains(
        scrubbed(ds[i], id),
    ) by {
        let k = if i < p {
            i
        } else {
            i - 1
        };
        assert(ds.remove(p)[k] == ds[i]);
        assert(r[k] == scrubbed(ds[i], id));
    }
    assert forall|a: int, b: int| 0 <= a < b < r.len() implies (#[trigger] r[a]).id != (
    #[trigger] r[b]).id && (ids_ascend(ds) ==> r[a].id < r[b].id) by {
        let x = if a < p {
            a
        } else {
            a + 1
        };
        let y = if b < p {
            b
        } else {
            b + 1
        };
        assert(r[a].id == ds[x].id && r[b].id == ds[y].id);
        assert(ds[x].id != ds[y].id);
    }
}

/// A superseded decision drops out of recall and points at its successor; all
/// other decisions stay as they are.
pub proof fn law_superseding(ds: Seq<DecisionEntryView>, old_id: u32, by: u32, other: u32)
    requires
        position_of(ds, old_id) is Some,
    ensures
        lookup(with_superseded(ds, old_id, by), old_id) is Some,
        !lookup(with_superseded(ds, old_id, by), old_id)->0.status.recalled(),
        lookup(with_superseded(ds, old_id, by), old_id)->0.superseded_by == Some(by),
        other != old_id ==> lookup(with_superseded(ds, old_id, by), other) == lookup(ds, other),
{
    let r = with_superseded(ds, old_id, by);
    let p = position_of(ds, old_id)->0;
    lemma_position_of(ds, old_id);
    lemma_position_of(ds, other);
    lemma_position_of(r, other);
    assert forall|j: int| 0 <= j < ds.len() implies (#[trigger] r[j]).id == ds[j].id by {}
    lemma_position_unique(r, old_id, p);
    if other != old_id {
        match position_of(ds, other) {
            Some(q) => {
                lemma_position_unique(r, other, q);
                assert(r[q] == ds[q]);
            },
            None => {
                if let Some(k) = position_of(r, other) {
                    assert(ds[k].id == other);
                }
            },
        }
    }
}

/// A decision is found under its own id and under no other, and where none has the
/// id, nothing is found.
pub proof fn law_lookup_finds_by_id(ds: Seq<DecisionEntryView>, id: u32)
    ensures
        match lookup(ds, id) {
            Some(d) => d.id == id && ds.contains(d),
            None => forall|i: int| 0 <= i < ds.len() ==> (#[trigger] ds[i]).id != id,
        },
{
    lemma_position_of(ds, id);
}

/// Scrubbing the links to a decision takes away those and no others, and leaves
/// everything else as it is.
pub proof fn law_scrubbing_takes_only_the_links(e: DecisionEntryView, id: u32, x: u32)
    ensures
        ({
            let s = scrubbed(e, id);
            &&& s.supersedes.contains(x) <==> e.supersedes.contains(x) && x != id
            &&& s.overrides.contains(x) <==> e.overrides.contains(x) && x != id
            &&& s.relates_to.contains(x) <==> e.relates_to.contains(x) && x != id
            &&& s.superseded_by == Some(x) <==> e.superseded_by == Some(x) && x != id
            &&& s == (DecisionEntryView {
                supersedes: s.supersedes,
                overrides: s.overrides,
                relates_to: s.relates_to,
                superseded_by: s.superseded_by,
                ..e
            })
        }),
{
    lemma_others_stay(e.supersedes, id, x);
    lemma_others_stay(e.overrides, id, x);
    lemma_others_stay(e.relates_to, id, x);
}

proof fn lemma_others_stay(ids: Seq<u32>, id: u32, x: u32)
    ensures
        without(ids, id).contains(x) <==> ids.contains(x) && x != id,
    decreases ids.len(),
{
    reveal(Seq::filter);
    let p = other_than(id);
    if ids.len() > 0 {
        let head = ids.drop_last();
        lemma_others_stay(head, id, x);
        let before = without(head, id);
        let all = without(ids, id);
        assert(ids[ids.len() - 1] == ids.last());
        if head.contains(x) {
            let k = choose|k: int| 0 <= k < head.len() && head[k] == x;
            assert(ids[k] == x);
        }
        if before.contains(x) {
            let k = choose|k: int| 0 <= k < before.len() && before[k] == x;
            assert(all[k] == x);
        }
        if p(ids.last()) {
            assert(all[before.len() as int] == ids.last());
        }
        if all.contains(x) {
            let k = choose|k: int| 0 <= k < all.len() && all[k] == x;
            if k < before.len() {
                assert(before[k] == x);
            }
        }
        if ids.contains(x) && x != ids.last() {
            let k = choose|k: int| 0 <= k < ids.len() && ids[k] == x;
            assert(head[k] == x);
        }
    }
}

/// Superseding changes nothing of a decision but its status and its successor.
pub proof fn law_superseding_keeps_the_rest(ds: Seq<DecisionEntryView>, old_id: u32, by: u32)
    requires
        position_of(ds, old_id) is Some,
    ensures
        lookup(with_superseded(ds, old_id, by), old_id) == Some(
            DecisionEntryView {
                status: DecisionStatus::Superseded,
                superseded_by: Some(by),
                ..lookup(ds, old_id)->0
            },
        ),
        with_superseded(ds, old_id, by).len() == ds.len(),
        forall|i: int|
            0 <= i < ds.len() && (#[trigger] ds[i]).id != old_id ==> with_superseded(
                ds,
                old_id,
                by,
            )[i] == ds[i],
{
    let r = with_superseded(ds, old_id, by);
    let p = position_of(ds, old_id)->0;
    lemma_position_of(ds, old_id);
    assert forall|j: int| 0 <= j < ds.len() implies (#[trigger] r[j]).id == ds[j].id by {}
    lemma_position_unique(r, old_id, p);
}

/// What is proposed or accepted is recalled; what is superseded or deprecated is
/// not.
pub proof fn law_recall()
    ensures
        DecisionStatus::Proposed.recalled(),
        DecisionStatus::Accepted.recalled(),
        !DecisionStatus::Superseded.recalled(),
        !DecisionStatus::Deprecated.recalled(),
{
}

proof fn lemma_sections_text(parts: Seq<SectionView>, k: int)
    requires
        0 <= k < parts.len(),
        trimmed(parts[k].content).len() > 0,
    ensures
        occurs(
            sections_text(parts),
            "## "@ + parts[k].name + "\n"@ + trimmed(parts[k].content),
        ),
    decreases parts.len(),
{
    let head = sections_text(parts.drop_last());
    let p = "## "@ + parts[k].name + "\n"@ + trimmed(parts[k].content);
    let q = parts.last();
    let more = "## "@ + q.name + "\n"@ + trimmed(q.content) + "\n\n"@;
    if trimmed(q.content).len() > 0 {
        assert(sections_text(parts) =~= head + more);
    }
    if k < parts.len() - 1 {
        lemma_sections_text(parts.drop_last(), k);
        lemma_part_stays(head, p, more);
    } else {
        lemma_part_at_end(head, p);
        lemma_part_stays(head + p, p, "\n\n"@);
        assert(head + p + "\n\n"@ =~= head + more);
    }
}

proof fn lemma_section_chunks(parts: Seq<SectionView>, k: int)
    requires
        0 <= k < parts.len(),
        trimmed(parts[k].content).len() > 0,
    ensures
        section_chunks(parts).contains(section_chunk(parts[k])),
    decreases parts.len(),
{
    let head = section_chunks(parts.drop_last());
    let all = section_chunks(parts);
    if k < parts.len() - 1 {
        lemma_section_chunks(parts.drop_last(), k);
        let m = choose|m: int| 0 <= m < head.len() && head[m] == section_chunk(parts[k]);
        assert(all[m] == head[m]);
    } else {
        assert(all[head.len() as int] == section_chunk(parts[k]));
    }
}

/// Whether an item shows a section: its text holds it under its name, and so does
/// a child of that name.
pub open spec fn shows_section(item: SourceItemView, name: Seq<char>, content: Seq<char>) -> bool {
    &&& occurs(item.content, "## "@ + name + "\n"@ + trimmed(content))
    &&& exists|k: int|
        0 <= k < item.children.len() && (#[trigger] item.children[k]).name == name
            && item.children[k].content == trimmed(content) && item.children[k].kind == "section"@
}

proof fn lemma_text_shows(head: Seq<char>, parts: Seq<SectionView>, k: int)
    requires
        0 <= k < parts.len(),
        trimmed(parts[k].content).len() > 0,
    ensures
        occurs(
            trimmed_end(head + sections_text(parts)),
            "## "@ + parts[k].name + "\n"@ + trimmed(parts[k].content),
        ),
{
    let text = sections_text(parts);
    lemma_sections_text(parts, k);
    lemma_part_at_end(head, text);
    lemma_last_is_not_white(parts[k].content);
    lemma_shown(head + text, text, "## "@ + parts[k].name + "\n"@, trimmed(parts[k].content));
}

proof fn lemma_shown(all: Seq<char>, text: Seq<char>, head: Seq<char>, content: Seq<char>)
    requires
        occurs(all, text),
        occurs(text, head + content),
        content.len() > 0,
        !is_white(content.last()),
    ensures
        occurs(trimmed_end(all), head + content),
{
    let p = head + content;
    lemma_part_of_part(p, text, all);
    assert(p.last() == content.last());
    lemma_part_survives_trimming(all, p);
}

proof fn lemma_last_is_not_white(s: Seq<char>)
    requires
        trimmed(s).len() > 0,
    ensures
        !is_white(trimmed(s).last()),
{
    law_trimming_takes_only_whitespace(s);
}

proof fn lemma_shows_section(e: DecisionEntryView, k: int)
    requires
        0 <= k < parts_of(e).len(),
        trimmed(parts_of(e)[k].content).len() > 0,
    ensures
        shows_section(item_of(e), parts_of(e)[k].name, parts_of(e)[k].content),
{
    let parts = parts_of(e);
    lemma_text_shows("# "@ + e.title + "\n\n"@, parts, k);
    lemma_section_chunks(parts, k);
    let all = section_chunks(parts);
    let m = choose|m: int| 0 <= m < all.len() && all[m] == section_chunk(parts[k]);
    assert(item_of(e).children[m].name == parts[k].name);
}

/// What is handed over for a decision: its address, and a text that holds its
/// title and, under their names, its context, the decision itself, its
/// consequences and the snapshot of every source, as far as they are not blank;
/// each of these is a child as well. The hash is that of the very text.
pub proof fn law_items_show_the_decision(e: DecisionEntryView)
    ensures
        ({
            let item = item_of(e);
            &&& item.source_path == uri_of(e.id)
            &&& item.content_hash == short_hash_of(item.content, 16)
            &&& item.language is None
            &&& item.module_doc is None
            &&& e.title.len() > 0 && !is_white(e.title.last()) ==> has_prefix(
                item.content,
                "# "@ + e.title,
            )
            &&& e.context matches Some(s) ==> (trimmed(s).len() > 0 ==> shows_section(
                item,
                "Context"@,
                s,
            ))
            &&& e.decision matches Some(s) ==> (trimmed(s).len() > 0 ==> shows_section(
                item,
                "Decision"@,
                s,
            ))
            &&& e.consequences matches Some(s) ==> (trimmed(s).len() > 0 ==> shows_section(
                item,
                "Consequences"@,
                s,
            ))
            &&& forall|k: int|
                0 <= k < e.sources.len() && trimmed((#[trigger] e.sources[k]).snapshot).len() > 0
                    ==> shows_section(item, "Source: "@ + e.sources[k].uri, e.sources[k].snapshot)
        }),
{
    let parts = parts_of(e);
    if let Some(s) = e.context {
        if trimmed(s).len() > 0 {
            assert(parts[0].content == s);
            lemma_shows_section(e, 0);
        }
    }
    if let Some(s) = e.decision {
        if trimmed(s).len() > 0 {
            assert(parts[1].content == s);
            lemma_shows_section(e, 1);
        }
    }
    if let Some(s) = e.consequences {
        if trimmed(s).len() > 0 {
            assert(parts[2].content == s);
            lemma_shows_section(e, 2);
        }
    }
    assert forall|k: int|
        0 <= k < e.sources.len() && trimmed((#[trigger] e.sources[k]).snapshot).len()
            > 0 implies shows_section(
        item_of(e),
        "Source: "@ + e.sources[k].uri,
        e.sources[k].snapshot,
    ) by {
        assert(parts[3 + k].content == e.sources[k].snapshot);
        lemma_shows_section(e, 3 + k);
    }
    if e.title.len() > 0 && !is_white(e.title.last()) {
        let p = "# "@ + e.title;
        let all = p + "\n\n"@ + sections_text(parts);
        lemma_trimmed_end_white(all);
        lemma_trimmed_is_part(all);
        let t = trimmed_end(all);
        assert(all[p.len() - 1] == e.title.last());
        assert(t.len() >= p.len());
        assert(t.take(p.len() as int) =~= p);
    }
}

/// A decision has no children but its sections that are not blank.
pub proof fn law_children_are_sections(e: DecisionEntryView, k: int)
    requires
        0 <= k < item_of(e).children.len(),
    ensures
        exists|j: int|
            0 <= j < parts_of(e).len() && item_of(e).children[k].name == (#[trigger] parts_of(
                e,
            )[j]).name && item_of(e).children[k].content == trimmed(parts_of(e)[j].content)
                && item_of(e).children[k].content.len() > 0,
{
    lemma_chunks_stem(parts_of(e), k);
    let parts = parts_of(e);
    let j = choose|j: int|
        0 <= j < parts.len() && section_chunks(parts)[k] == section_chunk(#[trigger] parts[j])
            && trimmed(parts[j].content).len() > 0;
    assert(parts_of(e)[j] == parts[j]);
}

proof fn lemma_chunks_stem(parts: Seq<SectionView>, k: int)
    requires
        0 <= k < section_chunks(parts).len(),
    ensures
        exists|j: int|
            0 <= j < parts.len() && section_chunks(parts)[k] == section_chunk(#[trigger] parts[j])
                && trimmed(parts[j].content).len() > 0,
    decreases parts.len(),
{
    let before = parts.drop_last();
    let head = section_chunks(before);
    if k < head.len() {
        lemma_chunks_stem(before, k);
        let j = choose|j: int|
            0 <= j < before.len() && head[k] == section_chunk(#[trigger] before[j]) && trimmed(
                before[j].content,
            ).len() > 0;
        assert(parts[j] == before[j]);
    } else {
        assert(parts[parts.len() - 1] == parts.last());
    }
}

} // verus!
