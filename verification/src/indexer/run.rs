//! An index run: the decisions between reading a source and writing a store.
use vstd::prelude::*;

use crate::indexer::edges::{resolve_call_edges, resolved};
use crate::indexer::pipeline::EmbedMode;
use crate::store::{Namespace, NamespaceMetadata, NamespaceMetadataView, NamespaceView, UpsertStats,
    VectorDocument, VectorDocumentView};
use crate::tap::{namespace_suffix, suffix_of};
use crate::text::{lemma_part_between, occurs, same};
use crate::textmap::TextMap;

verus! {

/// Metadata key under which a namespace records its embed mode.
pub const EMBED_MODE_META_KEY: &'static str = "embed_mode";

/// Why an index run stops.
#[derive(Debug)]
pub enum IndexError {
    /// The index was built with another embedder.
    EmbedderMismatch { stored: String, current: String },
    /// The index was built in another embed mode.
    ModeMismatch { stored: String, mode: EmbedMode },
}

/// What an [`IndexError`] holds.
#[verifier::ext_equal]
pub enum IndexErrorView {
    EmbedderMismatch { stored: Seq<char>, current: Seq<char> },
    ModeMismatch { stored: Seq<char>, mode: EmbedMode },
}

impl DeepView for IndexError {
    type V = IndexErrorView;

    open spec fn deep_view(&self) -> IndexErrorView {
        match self {
            IndexError::EmbedderMismatch { stored, current } => IndexErrorView::EmbedderMismatch {
                stored: stored@,
                current: current@,
            },
            IndexError::ModeMismatch { stored, mode } => IndexErrorView::ModeMismatch {
                stored: stored@,
                mode: *mode,
            },
        }
    }
}

/// An error in words.
pub open spec fn index_error_words(e: IndexErrorView) -> Seq<char> {
    match e {
        IndexErrorView::EmbedderMismatch { stored, current } =>
            "embedder mismatch: index was built with "@ + stored
            + ", but indexer is configured for "@ + current + "; run with --full to reindex"@,
        IndexErrorView::ModeMismatch { stored, mode } =>
            "embed mode mismatch: index was built in '"@ + stored
            + "' mode, but indexer is configured for '"@ + mode.name()
            + "'; run with --full to reindex"@,
    }
}

impl IndexError {
    /// The error as text.
    pub fn message(&self) -> (r: String)
        ensures
            r@ == index_error_words(self.deep_view()),
    {
        match self {
            IndexError::EmbedderMismatch { stored, current } => {
                let mut r = "embedder mismatch: index was built with ".to_string();
                r.append(stored.as_str());
                r.append(", but indexer is configured for ");
                r.append(current.as_str());
                r.append("; run with --full to reindex");
                r
            },
            IndexError::ModeMismatch { stored, mode } => {
                let mut r = "embed mode mismatch: index was built in '".to_string();
                r.append(stored.as_str());
                r.append("' mode, but indexer is configured for '");
                r.append(mode.as_str());
                r.append("'; run with --full to reindex");
                r
            },
        }
    }
}

/// What an index run is set up with.
#[derive(Debug)]
pub struct IndexRun {
    /// The names of the taps, in order.
    pub taps: Vec<String>,
    /// The identity of the embedder.
    pub embedder: String,
    pub base_namespace: Namespace,
    /// How many items are processed at a time.
    pub concurrency: usize,
    pub mode: EmbedMode,
}

/// What a [`IndexRun`] holds.
#[verifier::ext_equal]
pub struct IndexRunView {
    pub taps: Seq<Seq<char>>,
    pub embedder: Seq<char>,
    pub base_namespace: NamespaceView,
    pub concurrency: usize,
    pub mode: EmbedMode,
}

impl DeepView for IndexRun {
    type V = IndexRunView;

    open spec fn deep_view(&self) -> IndexRunView {
        IndexRunView {
            taps: self.taps.deep_view(),
            embedder: self.embedder@,
            base_namespace: self.base_namespace.deep_view(),
            concurrency: self.concurrency,
            mode: self.mode,
        }
    }
}

impl Clone for IndexRun {
    fn clone(&self) -> (r: Self)
        ensures
            r.deep_view() == self.deep_view(),
    {
        IndexRun {
            taps: self.taps.clone(),
            embedder: self.embedder.clone(),
            base_namespace: self.base_namespace.clone(),
            concurrency: self.concurrency,
            mode: self.mode,
        }
    }
}

/// The outcome of an index run.
#[derive(Debug)]
pub struct IndexReport {
    pub files_processed: usize,
    pub files_failed: usize,
    pub files_skipped: usize,
    pub vectors_upserted: usize,
    pub vectors_deleted: usize,
    /// The cursor of the last tap.
    pub hwm_advanced_to: Option<String>,
    /// Milliseconds the run took.
    pub elapsed_ms: u64,
}

/// What a [`IndexReport`] holds.
#[verifier::ext_equal]
pub struct IndexReportView {
    pub files_processed: usize,
    pub files_failed: usize,
    pub files_skipped: usize,
    pub vectors_upserted: usize,
    pub vectors_deleted: usize,
    pub hwm_advanced_to: Option<Seq<char>>,
    pub elapsed_ms: u64,
}

impl DeepView for IndexReport {
    type V = IndexReportView;

    open spec fn deep_view(&self) -> IndexReportView {
        IndexReportView {
            files_processed: self.files_processed,
            files_failed: self.files_failed,
            files_skipped: self.files_skipped,
            vectors_upserted: self.vectors_upserted,
            vectors_deleted: self.vectors_deleted,
            hwm_advanced_to: self.hwm_advanced_to.deep_view(),
            elapsed_ms: self.elapsed_ms,
        }
    }
}

impl Clone for IndexReport {
    fn clone(&self) -> (r: Self)
        ensures
            r.deep_view() == self.deep_view(),
    {
        IndexReport {
            files_processed: self.files_processed,
            files_failed: self.files_failed,
            files_skipped: self.files_skipped,
            vectors_upserted: self.vectors_upserted,
            vectors_deleted: self.vectors_deleted,
            hwm_advanced_to: self.hwm_advanced_to.clone(),
            elapsed_ms: self.elapsed_ms,
        }
    }
}

/// The counts of a run so far.
#[derive(Debug)]
pub struct IndexProgress {
    pub processed: usize,
    pub failed: usize,
    pub upserted: usize,
    pub deleted: usize,
    pub last_cursor: Option<String>,
}

/// What a [`IndexProgress`] holds.
#[verifier::ext_equal]
pub struct IndexProgressView {
    pub processed: usize,
    pub failed: usize,
    pub upserted: usize,
    pub deleted: usize,
    pub last_cursor: Option<Seq<char>>,
}

impl DeepView for IndexProgress {
    type V = IndexProgressView;

    open spec fn deep_view(&self) -> IndexProgressView {
        IndexProgressView {
            processed: self.processed,
            failed: self.failed,
            upserted: self.upserted,
            deleted: self.deleted,
            last_cursor: self.last_cursor.deep_view(),
        }
    }
}

impl Clone for IndexProgress {
    fn clone(&self) -> (r: Self)
        ensures
            r.deep_view() == self.deep_view(),
    {
        IndexProgress {
            processed: self.processed,
            failed: self.failed,
            upserted: self.upserted,
            deleted: self.deleted,
            last_cursor: self.last_cursor.clone(),
        }
    }
}

/// What became of one item.
#[derive(Debug)]
pub enum ItemOutcome {
    Processed { documents: Vec<VectorDocument> },
    Failed,
}

/// What an [`ItemOutcome`] holds.
#[verifier::ext_equal]
pub enum ItemOutcomeView {
    Processed { documents: Seq<VectorDocumentView> },
    Failed,
}

impl DeepView for ItemOutcome {
    type V = ItemOutcomeView;

    open spec fn deep_view(&self) -> ItemOutcomeView {
        match self {
            ItemOutcome::Processed { documents } => ItemOutcomeView::Processed {
                documents: documents.deep_view(),
            },
            ItemOutcome::Failed => ItemOutcomeView::Failed,
        }
    }
}

/// The namespace of a tap: the base's name with the tap's suffix.
pub open spec fn namespace_name(base: Seq<char>, tap: Seq<char>) -> Seq<char> {
    match suffix_of(tap) {
        None => base,
        Some(suffix) => base + suffix,
    }
}

/// The embed mode a namespace was built in; one indexed before modes were
/// recorded counts as built from summaries.
pub open spec fn stored_mode(meta: NamespaceMetadataView) -> Seq<char> {
    if meta.extra.contains_key(EMBED_MODE_META_KEY@) {
        meta.extra[EMBED_MODE_META_KEY@]
    } else {
        "summary"@
    }
}

/// Why a namespace cannot be indexed incrementally, if it cannot: another
/// embedder, or another mode. A full run, or a namespace that was never
/// indexed, is always fine.
pub open spec fn conflict(
    run: IndexRunView,
    full: bool,
    meta: NamespaceMetadataView,
) -> Option<IndexErrorView> {
    match meta.embedder {
        Some(stored) => if full {
            None
        } else if stored != run.embedder {
            Some(IndexErrorView::EmbedderMismatch { stored, current: run.embedder })
        } else if stored_mode(meta) != run.mode.name() {
            Some(IndexErrorView::ModeMismatch { stored: stored_mode(meta), mode: run.mode })
        } else {
            None
        },
        None => None,
    }
}

/// The metadata of a namespace after a run.
pub open spec fn metadata_after(run: IndexRunView, cursor: Option<Seq<char>>) ->
    NamespaceMetadataView {
    NamespaceMetadataView {
        hwm_sha: cursor,
        embedder: Some(run.embedder),
        extra: Map::<Seq<char>, Seq<char>>::empty().insert(EMBED_MODE_META_KEY@, run.mode.name()),
    }
}

/// The report of a finished run.
pub open spec fn report_of(p: IndexProgressView, elapsed_ms: u64) -> IndexReportView {
    IndexReportView {
        files_processed: p.processed,
        files_failed: p.failed,
        files_skipped: 0,
        vectors_upserted: p.upserted,
        vectors_deleted: p.deleted,
        hwm_advanced_to: p.last_cursor,
        elapsed_ms,
    }
}

/// The documents of the processed items, one item after the other.
pub open spec fn all_documents(outcomes: Seq<ItemOutcomeView>) -> Seq<VectorDocumentView>
    decreases outcomes.len(),
{
    if outcomes.len() == 0 {
        Seq::<VectorDocumentView>::empty()
    } else {
        all_documents(outcomes.drop_last()) + match outcomes.last() {
            ItemOutcomeView::Processed { documents } => documents,
            ItemOutcomeView::Failed => Seq::<VectorDocumentView>::empty(),
        }
    }
}

/// How many items were processed.
pub open spec fn processed_count(outcomes: Seq<ItemOutcomeView>) -> int
    decreases outcomes.len(),
{
    if outcomes.len() == 0 {
        0
    } else {
        processed_count(outcomes.drop_last()) + if outcomes.last() is Failed {
            0int
        } else {
            1int
        }
    }
}

/// Documents ready for the store: the call graph resolved, and the time of the
/// run as their last use.
pub open spec fn stamped(docs: Seq<VectorDocumentView>, now: i64) -> Seq<VectorDocumentView> {
    Seq::new(
        docs.len(),
        |i: int| VectorDocumentView { last_used_at: Some(now), ..resolved(docs, i) },
    )
}

impl IndexRun {
    /// Sets up a run; at least one item is processed at a time.
    pub fn new(
        taps: Vec<String>,
        embedder: String,
        base_namespace: Namespace,
        concurrency: usize,
        mode: EmbedMode,
    ) -> (r: IndexRun)
        ensures
            r.deep_view() == (IndexRunView {
                taps: taps.deep_view(),
                embedder: embedder@,
                base_namespace: base_namespace.deep_view(),
                concurrency: if concurrency == 0 {
                    1
                } else {
                    concurrency
                },
                mode,
            }),
    {
        let concurrency: usize = if concurrency == 0 {
            1
        } else {
            concurrency
        };
        IndexRun { taps, embedder, base_namespace, concurrency, mode }
    }

    /// The namespace of a tap.
    pub fn tap_namespace(&self, tap_name: &str) -> (r: Namespace)
        ensures
            r.name@ == namespace_name(self.base_namespace.name@, tap_name@),
    {
        match namespace_suffix(tap_name) {
            None => self.base_namespace.clone(),
            Some(suffix) => {
                let mut name = self.base_namespace.as_str().to_string();
                name.append(suffix.as_str());
                Namespace { name }
            },
        }
    }

    /// Checks a namespace's metadata against the run.
    pub fn check_metadata(&self, full: bool, meta: &NamespaceMetadata) -> (r: Result<
        (),
        IndexError,
    >)
        ensures
            match r {
                Ok(_) => conflict(self.deep_view(), full, meta.deep_view()) is None,
                Err(e) => conflict(self.deep_view(), full, meta.deep_view()) == Some(
                    e.deep_view(),
                ),
            },
    {
        if let Some(stored) = &meta.embedder {
            if !full {
                if !same(stored.as_str(), self.embedder.as_str()) {
                    return Err(
                        IndexError::EmbedderMismatch {
                            stored: stored.clone(),
                            current: self.embedder.clone(),
                        },
                    );
                }
                let built = match meta.extra.get(EMBED_MODE_META_KEY) {
                    Some(m) => m,
                    None => "summary",
                };
                if !same(built, self.mode.as_str()) {
                    return Err(
                        IndexError::ModeMismatch { stored: built.to_string(), mode: self.mode },
                    );
                }
            }
        }
        Ok(())
    }

    /// The metadata to write once a tap is done.
    pub fn new_metadata(&self, cursor: &Option<String>) -> (r: NamespaceMetadata)
        ensures
            r.deep_view() == metadata_after(self.deep_view(), cursor.deep_view()),
    {
        let mut extra = TextMap::new();
        extra.insert(EMBED_MODE_META_KEY, self.mode.as_str());
        NamespaceMetadata {
            hwm_sha: cursor.clone(),
            embedder: Some(self.embedder.clone()),
            extra,
        }
    }
}

impl IndexProgress {
    /// A run that has not begun.
    pub fn new() -> (r: IndexProgress)
        ensures
            r.deep_view() == (IndexProgressView {
                processed: 0,
                failed: 0,
                upserted: 0,
                deleted: 0,
                last_cursor: None,
            }),
    {
        IndexProgress { processed: 0, failed: 0, upserted: 0, deleted: 0, last_cursor: None }
    }

    /// Counts one deleted source path.
    pub fn count_deletion(&mut self)
        requires
            old(self).deleted < usize::MAX,
        ensures
            final(self).deep_view() == (IndexProgressView {
                deleted: (old(self).deleted + 1) as usize,
                ..old(self).deep_view()
            }),
    {
        self.deleted = self.deleted + 1;
    }

    /// Counts the outcomes of a tap's items and makes their documents ready for
    /// the store.
    pub fn finish_items(&mut self, outcomes: &Vec<ItemOutcome>, now: i64) -> (r: Vec<
        VectorDocument,
    >)
        requires
            old(self).processed + outcomes@.len() <= usize::MAX,
            old(self).failed + outcomes@.len() <= usize::MAX,
        ensures
            r.deep_view() == stamped(all_documents(outcomes.deep_view()), now),
            final(self).deep_view() == (IndexProgressView {
                processed: (old(self).processed + processed_count(
                    outcomes.deep_view(),
                )) as usize,
                failed: (old(self).failed + outcomes@.len() - processed_count(
                    outcomes.deep_view(),
                )) as usize,
                ..old(self).deep_view()
            }),
    {
        let ghost ov = outcomes.deep_view();
        let ghost p0 = self.processed;
        let ghost f0 = self.failed;
        let mut documents: Vec<VectorDocument> = Vec::new();
        let mut i: usize = 0;
        assert(documents.deep_view() =~= all_documents(ov.take(0)));
        while i < outcomes.len()
            invariant
                i <= outcomes@.len(),
                ov == outcomes.deep_view(),
                p0 + outcomes@.len() <= usize::MAX,
                f0 + outcomes@.len() <= usize::MAX,
                0 <= processed_count(ov.take(i as int)) <= i,
                self.processed == p0 + processed_count(ov.take(i as int)),
                self.failed == f0 + i - processed_count(ov.take(i as int)),
                self.upserted == old(self).upserted,
                self.deleted == old(self).deleted,
                self.last_cursor == old(self).last_cursor,
                documents.deep_view() == all_documents(ov.take(i as int)),
            decreases outcomes@.len() - i,
        {
            let ghost before = documents.deep_view();
            proof {
                assert(ov.take(i + 1).drop_last() =~= ov.take(i as int));
                assert(ov.take(i + 1).last() == outcomes@[i as int].deep_view());
            }
            match &outcomes[i] {
                ItemOutcome::Processed { documents: more } => {
                    self.processed = self.processed + 1;
                    let mut copy = more.clone();
                    let ghost cv = copy.deep_view();
                    documents.append(&mut copy);
                    assert(documents.deep_view() =~= before + cv);
                },
                ItemOutcome::Failed => {
                    self.failed = self.failed + 1;
                    assert(before + Seq::<VectorDocumentView>::empty() =~= before);
                },
            }
            i += 1;
        }
        assert(ov.take(i as int) =~= ov);
        let ghost docs = documents.deep_view();
        assert(docs.len() == documents@.len());
        resolve_call_edges(&mut documents);
        let n: usize = documents.len();
        let ghost rs = documents.deep_view();
        assert(rs.len() == documents@.len());
        assert(docs.len() == n);
        let mut k: usize = 0;
        while k < n
            invariant
                k <= n,
                n == documents@.len(),
                n == rs.len(),
                forall|j: int|
                    0 <= j < k ==> (#[trigger] documents@[j]).deep_view() == (VectorDocumentView {
                        last_used_at: Some(now),
                        ..rs[j]
                    }),
                forall|j: int| k <= j < n ==> (#[trigger] documents@[j]).deep_view() == rs[j],
            decreases n - k,
        {
            let mut d = documents[k].clone();
            d.last_used_at = Some(now);
            documents.set(k, d);
            k += 1;
        }
        assert(documents.deep_view() =~= stamped(docs, now));
        documents
    }

    /// Counts an upsert and remembers the tap's cursor.
    pub fn record_upsert(&mut self, stats: UpsertStats, cursor: Option<String>)
        requires
            old(self).upserted + stats.upserted <= usize::MAX,
        ensures
            final(self).deep_view() == (IndexProgressView {
                upserted: (old(self).upserted + stats.upserted) as usize,
                last_cursor: cursor.deep_view(),
                ..old(self).deep_view()
            }),
    {
        self.upserted = self.upserted + stats.upserted;
        self.last_cursor = cursor;
    }

    /// The report of a finished run.
    pub fn report(&self, elapsed_ms: u64) -> (r: IndexReport)
        ensures
            r.deep_view() == (IndexReportView {
                files_processed: self.processed,
                files_failed: self.failed,
                files_skipped: 0,
                vectors_upserted: self.upserted,
                vectors_deleted: self.deleted,
                hwm_advanced_to: self.last_cursor.deep_view(),
                elapsed_ms,
            }),
            r.deep_view() == report_of(self.deep_view(), elapsed_ms),
    {
        IndexReport {
            files_processed: self.processed,
            files_failed: self.failed,
            files_skipped: 0,
            vectors_upserted: self.upserted,
            vectors_deleted: self.deleted,
            hwm_advanced_to: self.last_cursor.clone(),
            elapsed_ms,
        }
    }
}

// ---------------------------------------------------------------------------
// Laws
// ---------------------------------------------------------------------------

/// A full run, and a first run, are never refused.
pub proof fn law_full_and_first_runs_are_accepted(
    run: IndexRunView,
    full: bool,
    meta: NamespaceMetadataView,
)
    requires
        full || meta.embedder is None,
    ensures
        conflict(run, full, meta) is None,
{
}

/// What a run writes, the next run with the same embedder and mode accepts, and
/// finds its cursor in; a run with another embedder or mode is refused unless
/// it is full.
pub proof fn law_metadata_carries_over(
    run: IndexRunView,
    next: IndexRunView,
    cursor: Option<Seq<char>>,
)
    ensures
        metadata_after(run, cursor).hwm_sha == cursor,
        run.embedder == next.embedder && run.mode == next.mode ==> conflict(
            next,
            false,
            metadata_after(run, cursor),
        ) is None,
        run.embedder != next.embedder ==> conflict(
            next,
            false,
            metadata_after(run, cursor),
        ) is Some,
        run.mode != next.mode ==> conflict(next, false, metadata_after(run, cursor)) is Some,
{
    reveal_strlit("summary");
    reveal_strlit("docstring");
    assert("summary"@.len() == 7);
    assert("docstring"@.len() == 9);
}

/// A namespace indexed before modes were recorded counts as built from
/// summaries: switching to docstrings needs a full run.
pub proof fn law_unrecorded_mode_is_summary(run: IndexRunView, meta: NamespaceMetadataView)
    requires
        meta.embedder == Some(run.embedder),
        !meta.extra.contains_key(EMBED_MODE_META_KEY@),
    ensures
        conflict(run, false, meta) is None <==> run.mode == EmbedMode::Summary,
{
    reveal_strlit("summary");
    reveal_strlit("docstring");
    assert("summary"@.len() == 7);
    assert("docstring"@.len() == 9);
}

/// Only the files tap indexes into the base namespace itself; taps of different
/// names have different namespaces.
pub proof fn law_taps_have_their_own_namespaces(base: Seq<char>, a: Seq<char>, b: Seq<char>)
    requires
        a != b,
    ensures
        namespace_name(base, a) == base <==> a == "files"@,
        namespace_name(base, a) != namespace_name(base, b),
{
    reveal_strlit("--");
    let na = namespace_name(base, a);
    let nb = namespace_name(base, b);
    if a != "files"@ {
        assert(na.len() == base.len() + 2 + a.len());
        if b != "files"@ && na == nb {
            assert(na.skip((base.len() + 2) as int) =~= a);
            assert(nb.skip((base.len() + 2) as int) =~= b);
        }
    }
    if b != "files"@ {
        assert(nb.len() == base.len() + 2 + b.len());
    }
}

/// Every item is counted once, as processed or as failed.
pub proof fn law_every_item_is_counted(outcomes: Seq<ItemOutcomeView>)
    ensures
        0 <= processed_count(outcomes) <= outcomes.len(),
    decreases outcomes.len(),
{
    if outcomes.len() > 0 {
        law_every_item_is_counted(outcomes.drop_last());
    }
}

/// The count of processed items is that of the outcomes that brought documents.
pub proof fn law_processed_items_are_counted(outcomes: Seq<ItemOutcomeView>)
    ensures
        processed_count(outcomes) == outcomes.filter(
            |o: ItemOutcomeView| o is Processed,
        ).len(),
    decreases outcomes.len(),
{
    reveal(Seq::filter);
    if outcomes.len() > 0 {
        law_processed_items_are_counted(outcomes.drop_last());
    }
}

/// Every document of every processed item is among the documents of a run, and
/// there are no others.
pub proof fn law_no_document_is_lost(outcomes: Seq<ItemOutcomeView>, d: VectorDocumentView)
    ensures
        all_documents(outcomes).contains(d) <==> exists|k: int|
            0 <= k < outcomes.len() && #[trigger] outcomes[k] is Processed
                && outcomes[k]->documents.contains(d),
    decreases outcomes.len(),
{
    if outcomes.len() > 0 {
        let n = outcomes.len() - 1;
        let before = outcomes.drop_last();
        law_no_document_is_lost(before, d);
        assert(forall|k: int| 0 <= k < n ==> #[trigger] outcomes[k] == before[k]);
        let head = all_documents(before);
        let all = all_documents(outcomes);
        let more = match outcomes[n] {
            ItemOutcomeView::Processed { documents } => documents,
            ItemOutcomeView::Failed => Seq::<VectorDocumentView>::empty(),
        };
        assert(all == head + more);
        if all.contains(d) {
            let m = choose|m: int| 0 <= m < all.len() && all[m] == d;
            if m < head.len() {
                assert(head[m] == d);
                let k = choose|k: int|
                    0 <= k < before.len() && #[trigger] before[k] is Processed
                        && before[k]->documents.contains(d);
                assert(outcomes[k] is Processed);
            } else {
                assert(more[m - head.len()] == d);
                assert(outcomes[n] is Processed);
            }
        }
        if exists|k: int|
            0 <= k < outcomes.len() && #[trigger] outcomes[k] is Processed
                && outcomes[k]->documents.contains(d) {
            let k = choose|k: int|
                0 <= k < outcomes.len() && #[trigger] outcomes[k] is Processed
                    && outcomes[k]->documents.contains(d);
            if k < n {
                assert(before[k] is Processed);
                let m = choose|m: int| 0 <= m < head.len() && head[m] == d;
                assert(all[m] == d);
            } else {
                let m = choose|m: int| 0 <= m < more.len() && more[m] == d;
                assert(all[head.len() + m] == d);
            }
        }
    }
}

/// The documents of one item stand together, and in their order.
pub proof fn law_documents_of_an_item_stay_together(outcomes: Seq<ItemOutcomeView>, k: int)
    requires
        0 <= k < outcomes.len(),
        outcomes[k] is Processed,
    ensures
        exists|i: int|
            0 <= i && i + outcomes[k]->documents.len() <= all_documents(outcomes).len()
                && #[trigger] all_documents(outcomes).subrange(
                i,
                i + outcomes[k]->documents.len(),
            ) == outcomes[k]->documents,
    decreases outcomes.len(),
{
    let n = outcomes.len() - 1;
    let before = outcomes.drop_last();
    let own = outcomes[k]->documents;
    let head = all_documents(before);
    let all = all_documents(outcomes);
    if k < n {
        law_documents_of_an_item_stay_together(before, k);
        let i = choose|i: int|
            0 <= i && i + own.len() <= head.len() && #[trigger] head.subrange(i, i + own.len())
                == own;
        assert(all.subrange(i, i + own.len()) =~= head.subrange(i, i + own.len()));
    } else {
        let i = head.len() as int;
        assert(all.subrange(i, i + own.len()) =~= own);
    }
}

/// Making documents ready for the store changes nothing of them but their calls,
/// their callers and the time of their last use, which is that of the run.
pub proof fn law_stamping_keeps_documents(docs: Seq<VectorDocumentView>, now: i64, i: int)
    requires
        0 <= i < docs.len(),
    ensures
        stamped(docs, now).len() == docs.len(),
        ({
            let d = stamped(docs, now)[i];
            &&& d.last_used_at == Some(now)
            &&& d.id == docs[i].id
            &&& d.vector == docs[i].vector
            &&& d.summary == docs[i].summary
            &&& d.file_path == docs[i].file_path
            &&& d.chunk_kind == docs[i].chunk_kind
            &&& d.symbol_name == docs[i].symbol_name
            &&& d.symbol_kind == docs[i].symbol_kind
            &&& d.start_line == docs[i].start_line
            &&& d.end_line == docs[i].end_line
            &&& d.language == docs[i].language
            &&& d.content_hash == docs[i].content_hash
            &&& d.calls == resolved(docs, i).calls
            &&& d.called_by == resolved(docs, i).called_by
        }),
{
}

/// A refusal tells what the index was built with and what the run is set to: these
/// differ, the run is not full, and an error about the mode comes only where the
/// embedder is the same.
pub proof fn law_refusals_tell_the_truth(
    run: IndexRunView,
    full: bool,
    meta: NamespaceMetadataView,
)
    ensures
        match conflict(run, full, meta) {
            Some(IndexErrorView::EmbedderMismatch { stored, current }) => !full && meta.embedder
                == Some(stored) && current == run.embedder && stored != current,
            Some(IndexErrorView::ModeMismatch { stored, mode }) => !full && meta.embedder == Some(
                run.embedder,
            ) && mode == run.mode && stored != mode.name() && (meta.extra.contains_key(
                EMBED_MODE_META_KEY@,
            ) ==> stored == meta.extra[EMBED_MODE_META_KEY@]),
            None => full || meta.embedder is None || meta.embedder == Some(run.embedder),
        },
{
}

/// The words of an error hold what the index was built with and what the run is
/// set to, in this order.
pub proof fn law_errors_name_both_sides(e: IndexErrorView)
    ensures
        match e {
            IndexErrorView::EmbedderMismatch { stored, current } => occurs(
                index_error_words(e),
                stored + ", but indexer is configured for "@ + current,
            ),
            IndexErrorView::ModeMismatch { stored, mode } => occurs(
                index_error_words(e),
                "'"@ + stored + "' mode, but indexer is configured for '"@ + mode.name() + "'"@,
            ),
        },
{
    match e {
        IndexErrorView::EmbedderMismatch { stored, current } => {
            let a = "embedder mismatch: index was built with "@;
            let p = stored + ", but indexer is configured for "@ + current;
            let b = "; run with --full to reindex"@;
            lemma_part_between(a, p, b);
            assert(a + p + b =~= index_error_words(e));
        },
        IndexErrorView::ModeMismatch { stored, mode } => {
            reveal_strlit("embed mode mismatch: index was built in '");
            reveal_strlit("embed mode mismatch: index was built in ");
            reveal_strlit("'");
            reveal_strlit("'; run with --full to reindex");
            reveal_strlit("; run with --full to reindex");
            let a = "embed mode mismatch: index was built in "@;
            let p = "'"@ + stored + "' mode, but indexer is configured for '"@ + mode.name() + "'"@;
            let b = "; run with --full to reindex"@;
            lemma_part_between(a, p, b);
            assert("embed mode mismatch: index was built in '"@ =~= a + "'"@);
            assert("'; run with --full to reindex"@ =~= "'"@ + b);
            assert(a + p + b =~= index_error_words(e));
        },
    }
}

} // verus!
