//! The course of an index run: which step follows which, given what came of the
//! step before.
use vstd::prelude::*;

use crate::indexer::run::{
    all_documents, conflict, law_every_item_is_counted, law_no_document_is_lost,
    law_processed_items_are_counted, law_stamping_keeps_documents, metadata_after, namespace_name,
    report_of,
    processed_count, stamped, IndexError, IndexErrorView, IndexProgress, IndexProgressView,
    IndexRun, IndexRunView, ItemOutcome, ItemOutcomeView,
};
use crate::store::{Namespace, NamespaceMetadata, NamespaceMetadataView, UpsertStats, VectorDocument,
    VectorDocumentView};
use crate::tap::{FetchContext, FetchContextView, FetchResult, FetchResultView, SourceItem,
    SourceItemView};
use crate::textmap::TextMap;

verus! {

/// What a tap handed over and the run has not dealt with yet.
#[derive(Debug)]
pub struct Pending {
    /// Source paths still to delete, from `at` on.
    pub deletions: Vec<String>,
    pub at: usize,
    pub items: Vec<SourceItem>,
    pub cursor: Option<String>,
}

/// What a [`Pending`] holds.
#[verifier::ext_equal]
pub struct PendingView {
    pub deletions: Seq<Seq<char>>,
    pub at: usize,
    pub items: Seq<SourceItemView>,
    pub cursor: Option<Seq<char>>,
}

impl DeepView for Pending {
    type V = PendingView;

    open spec fn deep_view(&self) -> PendingView {
        PendingView {
            deletions: self.deletions.deep_view(),
            at: self.at,
            items: self.items.deep_view(),
            cursor: self.cursor.deep_view(),
        }
    }
}

impl Clone for Pending {
    fn clone(&self) -> (r: Self)
        ensures
            r.deep_view() == self.deep_view(),
    {
        Pending {
            deletions: self.deletions.clone(),
            at: self.at,
            items: self.items.clone(),
            cursor: self.cursor.clone(),
        }
    }
}

/// What a run waits for.
#[derive(Debug)]
pub enum Phase {
    /// Whether the tap's namespace exists.
    Existence,
    /// The new namespace.
    Creation,
    /// The namespace's metadata.
    Metadata,
    /// The stored hashes; `since` is the stored cursor.
    Hashes { since: Option<String> },
    /// What the tap hands over.
    Fetching,
    /// The deletion at hand.
    Deleting { pending: Pending },
    /// The outcomes of that many items.
    Processing { items: usize, cursor: Option<String> },
    /// The upsert.
    Upserting { cursor: Option<String> },
    /// The writing of the metadata.
    Recording,
    /// Nothing any more.
    Over,
}

/// What a [`Phase`] holds.
#[verifier::ext_equal]
pub enum PhaseView {
    Existence,
    Creation,
    Metadata,
    Hashes { since: Option<Seq<char>> },
    Fetching,
    Deleting { pending: PendingView },
    Processing { items: nat, cursor: Option<Seq<char>> },
    Upserting { cursor: Option<Seq<char>> },
    Recording,
    Over,
}

impl DeepView for Phase {
    type V = PhaseView;

    open spec fn deep_view(&self) -> PhaseView {
        match self {
            Phase::Existence => PhaseView::Existence,
            Phase::Creation => PhaseView::Creation,
            Phase::Metadata => PhaseView::Metadata,
            Phase::Hashes { since } => PhaseView::Hashes { since: since.deep_view() },
            Phase::Fetching => PhaseView::Fetching,
            Phase::Deleting { pending } => PhaseView::Deleting { pending: pending.deep_view() },
            Phase::Processing { items, cursor } => PhaseView::Processing {
                items: *items as nat,
                cursor: cursor.deep_view(),
            },
            Phase::Upserting { cursor } => PhaseView::Upserting { cursor: cursor.deep_view() },
            Phase::Recording => PhaseView::Recording,
            Phase::Over => PhaseView::Over,
        }
    }
}

/// What came of a step.
#[derive(Debug)]
pub enum IndexEvent {
    /// Whether the namespace exists.
    Existence { exists: bool },
    /// The metadata that was read.
    Metadata { metadata: NamespaceMetadata },
    /// The hashes that were read; none where reading them failed.
    Hashes { stored: Option<TextMap> },
    /// What the tap handed over.
    Fetched { result: FetchResult },
    /// What became of the items, and the time in Unix seconds.
    Items { outcomes: Vec<ItemOutcome>, now: i64 },
    /// How much was written.
    Upserted { stats: UpsertStats },
    /// A step that brings nothing is done.
    Finished,
}

/// What an [`IndexEvent`] holds.
#[verifier::ext_equal]
pub enum IndexEventView {
    Existence { exists: bool },
    Metadata { metadata: NamespaceMetadataView },
    Hashes { stored: Option<Map<Seq<char>, Seq<char>>> },
    Fetched { result: FetchResultView },
    Items { outcomes: Seq<ItemOutcomeView>, now: i64 },
    Upserted { stats: UpsertStats },
    Finished,
}

impl DeepView for IndexEvent {
    type V = IndexEventView;

    open spec fn deep_view(&self) -> IndexEventView {
        match self {
            IndexEvent::Existence { exists } => IndexEventView::Existence { exists: *exists },
            IndexEvent::Metadata { metadata } => IndexEventView::Metadata {
                metadata: metadata.deep_view(),
            },
            IndexEvent::Hashes { stored } => IndexEventView::Hashes {
                stored: match stored {
                    Some(m) => Some(m@),
                    None => None,
                },
            },
            IndexEvent::Fetched { result } => IndexEventView::Fetched {
                result: result.deep_view(),
            },
            IndexEvent::Items { outcomes, now } => IndexEventView::Items {
                outcomes: outcomes.deep_view(),
                now: *now,
            },
            IndexEvent::Upserted { stats } => IndexEventView::Upserted { stats: *stats },
            IndexEvent::Finished => IndexEventView::Finished,
        }
    }
}

/// What to do next.
#[derive(Debug)]
pub enum IndexAction {
    /// Ask whether the namespace exists.
    CheckNamespace { namespace: Namespace },
    /// Create it, with the embedder's dimension.
    CreateNamespace { namespace: Namespace },
    /// Read its metadata.
    ReadMetadata { namespace: Namespace },
    /// Read its content hashes.
    ReadHashes { namespace: Namespace },
    /// Let the tap at this position fetch.
    Fetch { tap: usize, context: FetchContext },
    /// Delete the documents of a source path.
    DeleteFile { namespace: Namespace, path: String },
    /// Process the items, and delete what the store has of each that succeeds.
    Process { namespace: Namespace, items: Vec<SourceItem> },
    /// Write the documents.
    Upsert { namespace: Namespace, documents: Vec<VectorDocument> },
    /// Write the metadata.
    WriteMetadata { namespace: Namespace, metadata: NamespaceMetadata },
    /// The run is done.
    Finish,
    /// The run must stop.
    Stop { error: IndexError },
}

/// What an [`IndexAction`] holds.
#[verifier::ext_equal]
pub enum IndexActionView {
    CheckNamespace { namespace: Seq<char> },
    CreateNamespace { namespace: Seq<char> },
    ReadMetadata { namespace: Seq<char> },
    ReadHashes { namespace: Seq<char> },
    Fetch { tap: usize, context: FetchContextView },
    DeleteFile { namespace: Seq<char>, path: Seq<char> },
    Process { namespace: Seq<char>, items: Seq<SourceItemView> },
    Upsert { namespace: Seq<char>, documents: Seq<VectorDocumentView> },
    WriteMetadata { namespace: Seq<char>, metadata: NamespaceMetadataView },
    Finish,
    Stop { error: IndexErrorView },
}

impl DeepView for IndexAction {
    type V = IndexActionView;

    open spec fn deep_view(&self) -> IndexActionView {
        match self {
            IndexAction::CheckNamespace { namespace } => IndexActionView::CheckNamespace {
                namespace: namespace.name@,
            },
            IndexAction::CreateNamespace { namespace } => IndexActionView::CreateNamespace {
                namespace: namespace.name@,
            },
            IndexAction::ReadMetadata { namespace } => IndexActionView::ReadMetadata {
                namespace: namespace.name@,
            },
            IndexAction::ReadHashes { namespace } => IndexActionView::ReadHashes {
                namespace: namespace.name@,
            },
            IndexAction::Fetch { tap, context } => IndexActionView::Fetch {
                tap: *tap,
                context: context.deep_view(),
            },
            IndexAction::DeleteFile { namespace, path } => IndexActionView::DeleteFile {
                namespace: namespace.name@,
                path: path@,
            },
            IndexAction::Process { namespace, items } => IndexActionView::Process {
                namespace: namespace.name@,
                items: items.deep_view(),
            },
            IndexAction::Upsert { namespace, documents } => IndexActionView::Upsert {
                namespace: namespace.name@,
                documents: documents.deep_view(),
            },
            IndexAction::WriteMetadata { namespace, metadata } => IndexActionView::WriteMetadata {
                namespace: namespace.name@,
                metadata: metadata.deep_view(),
            },
            IndexAction::Finish => IndexActionView::Finish,
            IndexAction::Stop { error } => IndexActionView::Stop { error: error.deep_view() },
        }
    }
}

/// A run under way.
#[derive(Debug)]
pub struct IndexSession {
    pub run: IndexRun,
    pub full: bool,
    /// The position of the tap at hand.
    pub tap: usize,
    pub progress: IndexProgress,
    pub phase: Phase,
}

/// What an [`IndexSession`] holds.
#[verifier::ext_equal]
pub struct IndexSessionView {
    pub run: IndexRunView,
    pub full: bool,
    pub tap: usize,
    pub progress: IndexProgressView,
    pub phase: PhaseView,
}

impl DeepView for IndexSession {
    type V = IndexSessionView;

    open spec fn deep_view(&self) -> IndexSessionView {
        IndexSessionView {
            run: self.run.deep_view(),
            full: self.full,
            tap: self.tap,
            progress: self.progress.deep_view(),
            phase: self.phase.deep_view(),
        }
    }
}

/// The namespace of the tap at hand.
pub open spec fn current_namespace(s: IndexSessionView) -> Seq<char> {
    namespace_name(s.run.base_namespace.name, s.run.taps[s.tap as int])
}

/// A run that turns to the tap at `tap`, or ends after the last one.
pub open spec fn at_tap(s: IndexSessionView, tap: int) -> (IndexSessionView, IndexActionView) {
    if tap < s.run.taps.len() {
        let t = IndexSessionView { tap: tap as usize, phase: PhaseView::Existence, ..s };
        (t, IndexActionView::CheckNamespace { namespace: current_namespace(t) })
    } else {
        (
            IndexSessionView { tap: tap as usize, phase: PhaseView::Over, ..s },
            IndexActionView::Finish,
        )
    }
}

/// A run that makes the next deletion, or processes the items after the last.
pub open spec fn cleaning(s: IndexSessionView, p: PendingView) -> (
    IndexSessionView,
    IndexActionView,
) {
    let namespace = current_namespace(s);
    if p.at < p.deletions.len() {
        (
            IndexSessionView { phase: PhaseView::Deleting { pending: p }, ..s },
            IndexActionView::DeleteFile { namespace, path: p.deletions[p.at as int] },
        )
    } else {
        (
            IndexSessionView {
                phase: PhaseView::Processing { items: p.items.len(), cursor: p.cursor },
                ..s
            },
            IndexActionView::Process { namespace, items: p.items },
        )
    }
}

/// Whether an event answers what the run waits for. Every item that is processed
/// has an outcome.
pub open spec fn answers(phase: PhaseView, e: IndexEventView) -> bool {
    match phase {
        PhaseView::Existence => e is Existence,
        PhaseView::Creation => e is Finished,
        PhaseView::Metadata => e is Metadata,
        PhaseView::Hashes { .. } => e is Hashes,
        PhaseView::Fetching => e is Fetched,
        PhaseView::Deleting { .. } => e is Finished,
        PhaseView::Processing { items, .. } => match e {
            IndexEventView::Items { outcomes, .. } => outcomes.len() == items,
            _ => false,
        },
        PhaseView::Upserting { .. } => e is Upserted,
        PhaseView::Recording => e is Finished,
        PhaseView::Over => false,
    }
}

/// Whether the counts have room for what an event adds.
pub open spec fn has_room(s: IndexSessionView, e: IndexEventView) -> bool {
    let p = s.progress;
    match e {
        IndexEventView::Finished => s.phase is Deleting ==> p.deleted < usize::MAX,
        IndexEventView::Items { outcomes, .. } => p.processed + outcomes.len() <= usize::MAX
            && p.failed + outcomes.len() <= usize::MAX,
        IndexEventView::Upserted { stats } => p.upserted + stats.upserted <= usize::MAX,
        _ => true,
    }
}

/// Whether the run can take a step: the tap at hand is one of its taps.
pub open spec fn is_under_way(s: IndexSessionView) -> bool {
    &&& s.tap < s.run.taps.len()
    &&& s.run.taps.len() <= usize::MAX
    &&& s.phase matches PhaseView::Deleting { pending } ==> pending.at < pending.deletions.len()
        <= usize::MAX
}

/// The next step of a run, given what came of the last one.
///
/// Each tap is dealt with in order. Its namespace is made where it is missing;
/// a conflict with what the namespace was built with stops the run. The tap
/// then fetches, deletions are carried out, the items are processed and their
/// documents written, and last of all the metadata.
pub open spec fn stepped(s: IndexSessionView, e: IndexEventView) -> (
    IndexSessionView,
    IndexActionView,
) {
    let namespace = current_namespace(s);
    match (s.phase, e) {
        (PhaseView::Existence, IndexEventView::Existence { exists }) => if exists {
            (
                IndexSessionView { phase: PhaseView::Metadata, ..s },
                IndexActionView::ReadMetadata { namespace },
            )
        } else {
            (
                IndexSessionView { phase: PhaseView::Creation, ..s },
                IndexActionView::CreateNamespace { namespace },
            )
        },
        (PhaseView::Creation, IndexEventView::Finished) => (
            IndexSessionView { phase: PhaseView::Metadata, ..s },
            IndexActionView::ReadMetadata { namespace },
        ),
        (PhaseView::Metadata, IndexEventView::Metadata { metadata }) => match conflict(
            s.run,
            s.full,
            metadata,
        ) {
            Some(error) => (
                IndexSessionView { phase: PhaseView::Over, ..s },
                IndexActionView::Stop { error },
            ),
            None => (
                IndexSessionView {
                    phase: PhaseView::Hashes { since: metadata.hwm_sha },
                    ..s
                },
                IndexActionView::ReadHashes { namespace },
            ),
        },
        (PhaseView::Hashes { since }, IndexEventView::Hashes { stored }) => (
            IndexSessionView { phase: PhaseView::Fetching, ..s },
            IndexActionView::Fetch {
                tap: s.tap,
                context: FetchContextView {
                    full: s.full,
                    cursor: since,
                    stored_hashes: match stored {
                        Some(m) => m,
                        None => Map::<Seq<char>, Seq<char>>::empty(),
                    },
                },
            },
        ),
        (PhaseView::Fetching, IndexEventView::Fetched { result }) => cleaning(
            s,
            PendingView {
                deletions: result.deletions,
                at: 0,
                items: result.items,
                cursor: result.cursor,
            },
        ),
        (PhaseView::Deleting { pending }, IndexEventView::Finished) => cleaning(
            IndexSessionView {
                progress: IndexProgressView {
                    deleted: (s.progress.deleted + 1) as usize,
                    ..s.progress
                },
                ..s
            },
            PendingView { at: (pending.at + 1) as usize, ..pending },
        ),
        (PhaseView::Processing { cursor, .. }, IndexEventView::Items { outcomes, now }) => (
            IndexSessionView {
                progress: IndexProgressView {
                    processed: (s.progress.processed + processed_count(outcomes)) as usize,
                    failed: (s.progress.failed + outcomes.len() - processed_count(
                        outcomes,
                    )) as usize,
                    ..s.progress
                },
                phase: PhaseView::Upserting { cursor },
                ..s
            },
            IndexActionView::Upsert {
                namespace,
                documents: stamped(all_documents(outcomes), now),
            },
        ),
        (PhaseView::Upserting { cursor }, IndexEventView::Upserted { stats }) => (
            IndexSessionView {
                progress: IndexProgressView {
                    upserted: (s.progress.upserted + stats.upserted) as usize,
                    last_cursor: cursor,
                    ..s.progress
                },
                phase: PhaseView::Recording,
                ..s
            },
            IndexActionView::WriteMetadata { namespace, metadata: metadata_after(s.run, cursor) },
        ),
        (PhaseView::Recording, IndexEventView::Finished) => at_tap(s, s.tap + 1),
        _ => (s, IndexActionView::Finish),
    }
}

/// What became of an item: it counts as processed only where its documents are
/// there and the store let go of the old ones.
pub fn item_outcome(documents: Option<Vec<VectorDocument>>, old_ones_deleted: bool) -> (r:
    ItemOutcome)
    ensures
        r.deep_view() == match documents {
            Some(d) => if old_ones_deleted {
                ItemOutcomeView::Processed { documents: d.deep_view() }
            } else {
                ItemOutcomeView::Failed
            },
            None => ItemOutcomeView::Failed,
        },
{
    match documents {
        Some(documents) => if old_ones_deleted {
            ItemOutcome::Processed { documents }
        } else {
            ItemOutcome::Failed
        },
        None => ItemOutcome::Failed,
    }
}

impl IndexSession {
    /// Begins a run.
    pub fn begin(run: IndexRun, full: bool) -> (r: (IndexSession, IndexAction))
        ensures
            (r.0.deep_view(), r.1.deep_view()) == at_tap(
                (IndexSessionView {
                    run: run.deep_view(),
                    full,
                    tap: 0,
                    progress: IndexProgressView {
                        processed: 0,
                        failed: 0,
                        upserted: 0,
                        deleted: 0,
                        last_cursor: None,
                    },
                    phase: PhaseView::Over,
                }),
                0,
            ),
            r.0.deep_view() == begun(run.deep_view(), full),
            r.1.deep_view() is Finish || is_under_way(r.0.deep_view()),
    {
        let s = IndexSession {
            run,
            full,
            tap: 0,
            progress: IndexProgress::new(),
            phase: Phase::Over,
        };
        s.turn_to(0)
    }

    fn turn_to(self, tap: usize) -> (r: (IndexSession, IndexAction))
        ensures
            (r.0.deep_view(), r.1.deep_view()) == at_tap(self.deep_view(), tap as int),
            r.1.deep_view() is Finish || is_under_way(r.0.deep_view()),
    {
        let mut s = self;
        assert(s.run.taps.deep_view().len() == s.run.taps@.len());
        s.tap = tap;
        if tap < s.run.taps.len() {
            s.phase = Phase::Existence;
            let namespace = s.namespace();
            (s, IndexAction::CheckNamespace { namespace })
        } else {
            s.phase = Phase::Over;
            (s, IndexAction::Finish)
        }
    }

    fn namespace(&self) -> (r: Namespace)
        requires
            self.tap < self.run.taps@.len(),
        ensures
            r.name@ == current_namespace(self.deep_view()),
    {
        assert(self.run.taps.deep_view()[self.tap as int] == self.run.taps@[self.tap as int]@);
        self.run.tap_namespace(self.run.taps[self.tap].as_str())
    }

    fn clean(self, pending: Pending) -> (r: (IndexSession, IndexAction))
        requires
            self.tap < self.run.taps@.len(),
        ensures
            (r.0.deep_view(), r.1.deep_view()) == cleaning(self.deep_view(), pending.deep_view()),
            r.0.tap == self.tap,
            r.0.run == self.run,
            r.0.phase.deep_view() matches PhaseView::Deleting { pending } ==> pending.at
                < pending.deletions.len() <= usize::MAX,
    {
        let mut s = self;
        let namespace = s.namespace();
        assert(pending.deletions.deep_view().len() == pending.deletions@.len());
        if pending.at < pending.deletions.len() {
            assert(pending.deletions.deep_view()[pending.at as int]
                == pending.deletions@[pending.at as int]@);
            let path = pending.deletions[pending.at].clone();
            s.phase = Phase::Deleting { pending };
            (s, IndexAction::DeleteFile { namespace, path })
        } else {
            assert(pending.items.deep_view().len() == pending.items@.len());
            s.phase = Phase::Processing { items: pending.items.len(), cursor: pending.cursor };
            (s, IndexAction::Process { namespace, items: pending.items })
        }
    }

    /// Takes the next step.
    pub fn step(self, event: IndexEvent) -> (r: (IndexSession, IndexAction))
        requires
            is_under_way(self.deep_view()),
            answers(self.deep_view().phase, event.deep_view()),
            has_room(self.deep_view(), event.deep_view()),
        ensures
            (r.0.deep_view(), r.1.deep_view()) == stepped(self.deep_view(), event.deep_view()),
            r.1.deep_view() is Finish || r.1.deep_view() is Stop || is_under_way(r.0.deep_view()),
    {
        let IndexSession { run, full, tap, progress, phase } = self;
        assert(run.taps.deep_view().len() == run.taps@.len());
        let mut s = IndexSession { run, full, tap, progress, phase: Phase::Over };
        let namespace = s.namespace();
        assert(namespace.name@ == current_namespace(self.deep_view()));
        match (phase, event) {
            (Phase::Existence, IndexEvent::Existence { exists }) => if exists {
                s.phase = Phase::Metadata;
                (s, IndexAction::ReadMetadata { namespace })
            } else {
                s.phase = Phase::Creation;
                (s, IndexAction::CreateNamespace { namespace })
            },
            (Phase::Creation, IndexEvent::Finished) => {
                s.phase = Phase::Metadata;
                (s, IndexAction::ReadMetadata { namespace })
            },
            (Phase::Metadata, IndexEvent::Metadata { metadata }) => match s.run.check_metadata(
                full,
                &metadata,
            ) {
                Err(error) => (s, IndexAction::Stop { error }),
                Ok(_) => {
                    s.phase = Phase::Hashes { since: metadata.hwm_sha };
                    (s, IndexAction::ReadHashes { namespace })
                },
            },
            (Phase::Hashes { since }, IndexEvent::Hashes { stored }) => {
                let stored_hashes = match stored {
                    Some(m) => m,
                    None => TextMap::new(),
                };
                s.phase = Phase::Fetching;
                (
                    s,
                    IndexAction::Fetch {
                        tap,
                        context: FetchContext { full, cursor: since, stored_hashes },
                    },
                )
            },
            (Phase::Fetching, IndexEvent::Fetched { result }) => {
                let pending = Pending {
                    deletions: result.deletions,
                    at: 0,
                    items: result.items,
                    cursor: result.cursor,
                };
                s.clean(pending)
            },
            (Phase::Deleting { pending }, IndexEvent::Finished) => {
                s.progress.count_deletion();
                let next = Pending {
                    deletions: pending.deletions,
                    at: pending.at + 1,
                    items: pending.items,
                    cursor: pending.cursor,
                };
                s.clean(next)
            },
            (Phase::Processing { cursor, .. }, IndexEvent::Items { outcomes, now }) => {
                assert(outcomes.deep_view().len() == outcomes@.len());
                let documents = s.progress.finish_items(&outcomes, now);
                s.phase = Phase::Upserting { cursor };
                (s, IndexAction::Upsert { namespace, documents })
            },
            (Phase::Upserting { cursor }, IndexEvent::Upserted { stats }) => {
                let metadata = s.run.new_metadata(&cursor);
                s.progress.record_upsert(stats, cursor);
                s.phase = Phase::Recording;
                (s, IndexAction::WriteMetadata { namespace, metadata })
            },
            (Phase::Recording, IndexEvent::Finished) => s.turn_to(tap + 1),
            _ => (s, IndexAction::Finish),
        }
    }
}

// ---------------------------------------------------------------------------
// Laws
// ---------------------------------------------------------------------------

/// The metadata of a tap's namespace is written only once its documents are,
/// and it carries the cursor the tap handed over.
pub proof fn law_metadata_is_written_last(s: IndexSessionView, e: IndexEventView)
    requires
        answers(s.phase, e),
    ensures
        stepped(s, e).1 is WriteMetadata <==> s.phase is Upserting,
        stepped(s, e).1 is Upsert <==> s.phase is Processing,
        s.phase matches PhaseView::Upserting { cursor } ==> stepped(s, e).1
            == (IndexActionView::WriteMetadata {
            namespace: current_namespace(s),
            metadata: metadata_after(s.run, cursor),
        }),
{
}

/// A conflict stops the run before anything of the tap's is fetched, deleted or
/// written; without one the run goes on.
pub proof fn law_conflicts_stop_the_run(s: IndexSessionView, metadata: NamespaceMetadataView)
    requires
        s.phase is Metadata,
    ensures
        stepped(s, IndexEventView::Metadata { metadata }).1 is Stop <==> conflict(
            s.run,
            s.full,
            metadata,
        ) is Some,
        stepped(s, IndexEventView::Metadata { metadata }).1 is Stop || stepped(
            s,
            IndexEventView::Metadata { metadata },
        ).1 is ReadHashes,
{
}

/// How far a run is: taps that are left, phases of the tap at hand, and
/// deletions that are left.
pub open spec fn distance(s: IndexSessionView) -> (int, int, int) {
    (
        s.run.taps.len() - s.tap,
        match s.phase {
            PhaseView::Existence => 8,
            PhaseView::Creation => 7,
            PhaseView::Metadata => 6,
            PhaseView::Hashes { .. } => 5,
            PhaseView::Fetching => 4,
            PhaseView::Deleting { .. } => 3,
            PhaseView::Processing { .. } => 2,
            PhaseView::Upserting { .. } => 1,
            PhaseView::Recording => 0,
            PhaseView::Over => 0,
        },
        match s.phase {
            PhaseView::Deleting { pending } => pending.deletions.len() - pending.at,
            _ => 0,
        },
    )
}

/// Every step brings the run nearer to its end: fewer taps are left, or the tap
/// at hand is further on, or fewer deletions are left.
pub proof fn law_runs_end(s: IndexSessionView, e: IndexEventView)
    requires
        is_under_way(s),
        answers(s.phase, e),
        has_room(s, e),
    ensures
        ({
            let (t, action) = stepped(s, e);
            let (a0, b0, c0) = distance(s);
            let (a1, b1, c1) = distance(t);
            &&& 0 <= a1 && 0 <= b1 && 0 <= c1
            &&& action is Stop || a1 < a0 || (a1 == a0 && (b1 < b0 || (b1 == b0 && c1 < c0)))
        }),
{
}

/// A run never touches a namespace but those of its taps, one after the other.
pub proof fn law_runs_stay_in_their_namespaces(s: IndexSessionView, e: IndexEventView)
    requires
        is_under_way(s),
        answers(s.phase, e),
        has_room(s, e),
    ensures
        match stepped(s, e).1 {
            IndexActionView::CreateNamespace { namespace } => namespace == current_namespace(s),
            IndexActionView::ReadMetadata { namespace } => namespace == current_namespace(s),
            IndexActionView::ReadHashes { namespace } => namespace == current_namespace(s),
            IndexActionView::DeleteFile { namespace, .. } => namespace == current_namespace(s),
            IndexActionView::Process { namespace, .. } => namespace == current_namespace(s),
            IndexActionView::Upsert { namespace, .. } => namespace == current_namespace(s),
            IndexActionView::WriteMetadata { namespace, .. } => namespace == current_namespace(s),
            IndexActionView::CheckNamespace { namespace } => namespace == current_namespace(
                stepped(s, e).0,
            ) && stepped(s, e).0.tap == s.tap + 1,
            _ => true,
        },
{
}

/// A run that has just begun.
pub open spec fn begun(run: IndexRunView, full: bool) -> IndexSessionView {
    at_tap(
        IndexSessionView {
            run,
            full,
            tap: 0,
            progress: IndexProgressView {
                processed: 0,
                failed: 0,
                upserted: 0,
                deleted: 0,
                last_cursor: None,
            },
            phase: PhaseView::Over,
        },
        0,
    ).0
}

/// Where a run stands after a series of events.
pub open spec fn after(s: IndexSessionView, events: Seq<IndexEventView>) -> IndexSessionView
    decreases events.len(),
{
    if events.len() == 0 {
        s
    } else {
        stepped(after(s, events.drop_last()), events.last()).0
    }
}

/// Whether every event of a series answers what the run then waits for.
pub open spec fn is_course(s: IndexSessionView, events: Seq<IndexEventView>) -> bool
    decreases events.len(),
{
    events.len() == 0 || {
        let t = after(s, events.drop_last());
        &&& is_course(s, events.drop_last())
        &&& is_under_way(t)
        &&& answers(t.phase, events.last())
        &&& has_room(t, events.last())
    }
}

/// How many times a tap handed something over.
pub open spec fn fetches(events: Seq<IndexEventView>) -> int
    decreases events.len(),
{
    if events.len() == 0 {
        0
    } else {
        fetches(events.drop_last()) + if events.last() is Fetched {
            1int
        } else {
            0
        }
    }
}

/// How many items the taps handed over.
pub open spec fn fetched_items(events: Seq<IndexEventView>) -> int
    decreases events.len(),
{
    if events.len() == 0 {
        0
    } else {
        fetched_items(events.drop_last()) + match events.last() {
            IndexEventView::Fetched { result } => result.items.len() as int,
            _ => 0,
        }
    }
}

/// How many deletions the taps asked for.
pub open spec fn fetched_deletions(events: Seq<IndexEventView>) -> int
    decreases events.len(),
{
    if events.len() == 0 {
        0
    } else {
        fetched_deletions(events.drop_last()) + match events.last() {
            IndexEventView::Fetched { result } => result.deletions.len() as int,
            _ => 0,
        }
    }
}

/// The cursor that a tap handed over last.
pub open spec fn newest_cursor(events: Seq<IndexEventView>) -> Option<Seq<char>>
    decreases events.len(),
{
    if events.len() == 0 {
        None
    } else {
        match events.last() {
            IndexEventView::Fetched { result } => result.cursor,
            _ => newest_cursor(events.drop_last()),
        }
    }
}

/// Whether a run has dealt with what was fetched, but for what it still holds.
spec fn accounts(run: IndexRunView, t: IndexSessionView, events: Seq<IndexEventView>) -> bool {
    let p = t.progress;
    let (fetched, items, deletions, cursor) = match t.phase {
        PhaseView::Deleting { pending } => (
            1int,
            pending.items.len() as int,
            pending.deletions.len() - pending.at,
            pending.cursor,
        ),
        PhaseView::Processing { items, cursor } => (1int, items as int, 0int, cursor),
        PhaseView::Upserting { cursor } => (1int, 0int, 0int, cursor),
        PhaseView::Recording => (1int, 0int, 0int, p.last_cursor),
        _ => (0int, 0int, 0int, p.last_cursor),
    };
    &&& fetches(events) == t.tap + fetched
    &&& fetched_items(events) == p.processed + p.failed + items
    &&& fetched_deletions(events) == p.deleted + deletions
    &&& newest_cursor(events) == cursor
    &&& t.run == run
    &&& t.phase is Over ==> t.tap == run.taps.len() || (events.len() > 0
        && events.last() is Metadata)
}

proof fn lemma_accounts(run: IndexRunView, full: bool, events: Seq<IndexEventView>)
    requires
        is_course(begun(run, full), events),
    ensures
        accounts(run, after(begun(run, full), events), events),
    decreases events.len(),
{
    if events.len() > 0 {
        let t = after(begun(run, full), events.drop_last());
        lemma_accounts(run, full, events.drop_last());
        if let IndexEventView::Items { outcomes, .. } = events.last() {
            law_every_item_is_counted(outcomes);
        }
    }
}

/// When a run is over, or was stopped by a tap's metadata, it accounts for all
/// that was fetched: each tap it came past fetched once, which are all taps where
/// it was not stopped; every item was processed or failed; every deletion was
/// made; and the cursor reported is the last one handed over. The metadata of a
/// tap's namespace is written with the cursor of that very fetch.
pub proof fn law_runs_account_for_what_was_fetched(
    run: IndexRunView,
    full: bool,
    events: Seq<IndexEventView>,
)
    requires
        is_course(begun(run, full), events),
    ensures
        ({
            let t = after(begun(run, full), events);
            &&& t.phase is Over ==> {
                &&& t.tap == run.taps.len() || (events.len() > 0 && events.last() is Metadata)
                &&& fetches(events) == t.tap
                &&& t.progress.processed + t.progress.failed == fetched_items(events)
                &&& t.progress.deleted == fetched_deletions(events)
                &&& t.progress.last_cursor == newest_cursor(events)
            }
            &&& t.phase matches PhaseView::Upserting { cursor } ==> cursor == newest_cursor(events)
        }),
{
    lemma_accounts(run, full, events);
}

/// A missing namespace is made, and only a missing one; then its metadata is read.
pub proof fn law_missing_namespaces_are_made(s: IndexSessionView, exists: bool)
    requires
        s.phase is Existence,
    ensures
        ({
            let (t, action) = stepped(s, IndexEventView::Existence { exists });
            let namespace = namespace_name(s.run.base_namespace.name, s.run.taps[s.tap as int]);
            &&& exists ==> action == (IndexActionView::ReadMetadata { namespace })
            &&& !exists ==> action == (IndexActionView::CreateNamespace { namespace }) && stepped(
                t,
                IndexEventView::Finished,
            ).1 == (IndexActionView::ReadMetadata { namespace })
        }),
{
}

/// A tap fetches with what the store holds about its own namespace: the cursor of
/// the metadata, and the hashes, of which there are none where the store has none;
/// whether the run is full is said as well.
pub proof fn law_taps_fetch_from_where_they_were(
    s: IndexSessionView,
    metadata: NamespaceMetadataView,
    stored: Option<Map<Seq<char>, Seq<char>>>,
)
    requires
        s.phase is Metadata,
        conflict(s.run, s.full, metadata) is None,
    ensures
        ({
            let t = stepped(s, IndexEventView::Metadata { metadata }).0;
            match stepped(t, IndexEventView::Hashes { stored }).1 {
                IndexActionView::Fetch { tap, context } => {
                    &&& tap == s.tap
                    &&& context.full == s.full
                    &&& context.cursor == metadata.hwm_sha
                    &&& stored matches Some(m) ==> context.stored_hashes == m
                    &&& stored is None ==> forall|k: Seq<char>|
                        !#[trigger] context.stored_hashes.contains_key(k)
                },
                _ => false,
            }
        }),
{
}

/// After a fetch every deletion is carried out, one at a time and in order, before
/// any item is processed; then exactly the items of the fetch are.
pub proof fn law_deletions_come_before_items(
    s: IndexSessionView,
    result: FetchResultView,
    k: nat,
)
    requires
        s.phase is Fetching,
        k <= result.deletions.len() <= usize::MAX,
        s.progress.deleted + result.deletions.len() <= usize::MAX,
    ensures
        ({
            let (t, action) = made_deletions(s, result, k);
            let namespace = namespace_name(s.run.base_namespace.name, s.run.taps[s.tap as int]);
            &&& t.progress.deleted == s.progress.deleted + k
            &&& t.tap == s.tap
            &&& k < result.deletions.len() ==> t.phase is Deleting && action
                == (IndexActionView::DeleteFile { namespace, path: result.deletions[k as int] })
            &&& k == result.deletions.len() ==> action == (IndexActionView::Process {
                namespace,
                items: result.items,
            })
        }),
{
    lemma_made_deletions(s, result, k);
}

/// Where a run stands, and what it does next, once `k` of a fetch's deletions are
/// made.
pub open spec fn made_deletions(s: IndexSessionView, result: FetchResultView, k: nat) -> (
    IndexSessionView,
    IndexActionView,
)
    decreases k,
{
    if k == 0 {
        stepped(s, IndexEventView::Fetched { result })
    } else {
        stepped(made_deletions(s, result, (k - 1) as nat).0, IndexEventView::Finished)
    }
}

proof fn lemma_made_deletions(s: IndexSessionView, result: FetchResultView, k: nat)
    requires
        s.phase is Fetching,
        k <= result.deletions.len() <= usize::MAX,
        s.progress.deleted + result.deletions.len() <= usize::MAX,
    ensures
        ({
            let before = IndexSessionView {
                progress: IndexProgressView {
                    deleted: (s.progress.deleted + k) as usize,
                    ..s.progress
                },
                ..s
            };
            made_deletions(s, result, k) == cleaning(
                before,
                PendingView {
                    deletions: result.deletions,
                    at: k as usize,
                    items: result.items,
                    cursor: result.cursor,
                },
            )
        }),
    decreases k,
{
    if k > 0 {
        lemma_made_deletions(s, result, (k - 1) as nat);
    }
}

/// What is written for a tap is what became of its items: a document of each
/// processed item's documents, in their order and with the parts they have, stamped
/// with the time of the run.
pub proof fn law_processed_documents_are_written(
    s: IndexSessionView,
    outcomes: Seq<ItemOutcomeView>,
    now: i64,
    d: VectorDocumentView,
    k: int,
)
    requires
        s.phase is Processing,
        0 <= k < outcomes.len(),
        outcomes[k] is Processed,
        outcomes[k]->documents.contains(d),
    ensures
        match stepped(s, IndexEventView::Items { outcomes, now }).1 {
            IndexActionView::Upsert { documents, .. } => exists|i: int|
                0 <= i < documents.len() && (#[trigger] documents[i]).id == d.id
                    && documents[i].vector == d.vector && documents[i].summary == d.summary
                    && documents[i].file_path == d.file_path && documents[i].symbol_name
                    == d.symbol_name && documents[i].content_hash == d.content_hash
                    && documents[i].last_used_at == Some(now),
            _ => false,
        },
{
    let all = all_documents(outcomes);
    law_no_document_is_lost(outcomes, d);
    assert(outcomes[k] is Processed);
    assert(all.contains(d));
    let i = choose|i: int| 0 <= i < all.len() && all[i] == d;
    law_stamping_keeps_documents(all, now, i);
    let (t, action) = stepped(s, IndexEventView::Items { outcomes, now });
    match action {
        IndexActionView::Upsert { documents, .. } => {
            assert(documents == stamped(all, now));
            assert(documents[i].id == d.id);
        },
        _ => {
            assert(false);
        },
    }
}

/// Each step changes only the counts it is about: a deletion adds one to the
/// deletions, the items add to those processed and failed, an upsert adds what the
/// store says and keeps the tap's cursor; and no other step changes any.
pub proof fn law_steps_count_what_happened(s: IndexSessionView, e: IndexEventView)
    requires
        is_under_way(s),
        answers(s.phase, e),
        has_room(s, e),
    ensures
        ({
            let p = s.progress;
            let q = stepped(s, e).0.progress;
            &&& stepped(s, e).0.run == s.run
            &&& stepped(s, e).0.full == s.full
            &&& match e {
                IndexEventView::Items { outcomes, .. } => {
                    let done = outcomes.filter(|o: ItemOutcomeView| o is Processed).len();
                    &&& q.processed == p.processed + done
                    &&& q.failed == p.failed + outcomes.len() - done
                    &&& q.upserted == p.upserted
                    &&& q.deleted == p.deleted
                    &&& q.last_cursor == p.last_cursor
                },
                IndexEventView::Upserted { stats } => {
                    &&& q.processed == p.processed
                    &&& q.failed == p.failed
                    &&& q.upserted == p.upserted + stats.upserted
                    &&& q.deleted == p.deleted
                    &&& s.phase matches PhaseView::Upserting { cursor } && q.last_cursor == cursor
                },
                IndexEventView::Finished => {
                    &&& q.processed == p.processed
                    &&& q.failed == p.failed
                    &&& q.upserted == p.upserted
                    &&& q.deleted == p.deleted + if s.phase is Deleting {
                        1int
                    } else {
                        0
                    }
                    &&& q.last_cursor == p.last_cursor
                },
                _ => q == p,
            }
        }),
{
    if let IndexEventView::Items { outcomes, .. } = e {
        law_processed_items_are_counted(outcomes);
        law_every_item_is_counted(outcomes);
    }
}

/// How many items brought documents.
pub open spec fn processed_in(events: Seq<IndexEventView>) -> int
    decreases events.len(),
{
    if events.len() == 0 {
        0
    } else {
        processed_in(events.drop_last()) + match events.last() {
            IndexEventView::Items { outcomes, .. } => outcomes.filter(
                |o: ItemOutcomeView| o is Processed,
            ).len() as int,
            _ => 0,
        }
    }
}

/// How many vectors the store says it wrote.
pub open spec fn upserted_in(events: Seq<IndexEventView>) -> int
    decreases events.len(),
{
    if events.len() == 0 {
        0
    } else {
        upserted_in(events.drop_last()) + match events.last() {
            IndexEventView::Upserted { stats } => stats.upserted as int,
            _ => 0,
        }
    }
}

proof fn lemma_counts_add_up(run: IndexRunView, full: bool, events: Seq<IndexEventView>)
    requires
        is_course(begun(run, full), events),
    ensures
        ({
            let p = after(begun(run, full), events).progress;
            &&& p.processed == processed_in(events)
            &&& p.upserted == upserted_in(events)
        }),
    decreases events.len(),
{
    if events.len() > 0 {
        let s = after(begun(run, full), events.drop_last());
        lemma_counts_add_up(run, full, events.drop_last());
        law_steps_count_what_happened(s, events.last());
    }
}

/// The report of a run that is over tells what happened in it: how many items
/// brought documents and how many of those fetched did not, how many vectors the
/// store wrote, how many deletions were made, and the cursor handed over last.
pub proof fn law_reports_tell_what_happened(
    run: IndexRunView,
    full: bool,
    events: Seq<IndexEventView>,
    elapsed_ms: u64,
)
    requires
        is_course(begun(run, full), events),
        after(begun(run, full), events).phase is Over,
    ensures
        ({
            let r = report_of(after(begun(run, full), events).progress, elapsed_ms);
            &&& r.files_processed == processed_in(events)
            &&& r.files_failed == fetched_items(events) - processed_in(events)
            &&& r.files_skipped == 0
            &&& r.vectors_upserted == upserted_in(events)
            &&& r.vectors_deleted == fetched_deletions(events)
            &&& r.hwm_advanced_to == newest_cursor(events)
            &&& r.elapsed_ms == elapsed_ms
        }),
{
    lemma_counts_add_up(run, full, events);
    law_runs_account_for_what_was_fetched(run, full, events);
}

} // verus!
