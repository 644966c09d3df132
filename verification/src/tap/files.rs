//! The files tap: the source files of a repository as documents.
use vstd::prelude::*;

use crate::chunk::languages::config_of;
use crate::chunk::syntax::{grammar_error, parsed};
use crate::chunk::tree_sitter::{chunks_of, TreeSitterChunker};
use crate::chunk::{
    detect_language, path_language, Chunker, FileChunks, FileChunksView, SymbolChunkView,
};
use crate::eval::metrics::{Content, ContentView};
use crate::hash::{short_hash, short_hash_of};
use crate::tap::{is_unchanged, unchanged, FetchContext, FetchContextView, FetchResult,
    FetchResultView, SourceChunk, SourceChunkView, SourceItem, SourceItemView};

verus! {

/// Which files a run looks at.
#[derive(Debug)]
pub enum FileScope {
    /// All files of the repository.
    All,
    /// The files that changed since this commit.
    Since(String),
}

/// What a [`FileScope`] holds.
#[verifier::ext_equal]
pub enum FileScopeView {
    All,
    Since(Seq<char>),
}

impl DeepView for FileScope {
    type V = FileScopeView;

    open spec fn deep_view(&self) -> FileScopeView {
        match self {
            FileScope::All => FileScopeView::All,
            FileScope::Since(s) => FileScopeView::Since(s@),
        }
    }
}

/// Which files a run looks at: all on a full or a first run.
pub open spec fn scope_of(ctx: FetchContextView) -> FileScopeView {
    match ctx.cursor {
        Some(sha) => if ctx.full {
            FileScopeView::All
        } else {
            FileScopeView::Since(sha)
        },
        None => FileScopeView::All,
    }
}

/// Chooses which files a run looks at.
pub fn files_to_process(ctx: &FetchContext) -> (r: FileScope)
    ensures
        r.deep_view() == scope_of(ctx.deep_view()),
{
    match &ctx.cursor {
        Some(sha) => if ctx.full {
            FileScope::All
        } else {
            FileScope::Since(sha.clone())
        },
        None => FileScope::All,
    }
}

/// A symbol as a child of its file's item.
pub open spec fn chunk_of(s: SymbolChunkView) -> SourceChunkView {
    SourceChunkView {
        name: s.name,
        kind: s.kind,
        content: s.body,
        signature: s.signature,
        doc_comment: s.doc_comment,
        start_line: Some(s.start_line),
        end_line: Some(s.end_line),
        references: s.references,
    }
}

/// A file as an item, given what it was taken apart into; a file that could not
/// be taken apart has no children.
pub open spec fn item_of(
    rel_path: Seq<char>,
    content: Seq<char>,
    chunks: Option<FileChunksView>,
) -> SourceItemView {
    SourceItemView {
        source_path: rel_path,
        content,
        content_hash: short_hash_of(content, 16),
        language: path_language(rel_path),
        module_doc: match chunks {
            Some(c) => c.module_doc,
            None => None,
        },
        children: match chunks {
            Some(c) => c.symbols.map_values(|s: SymbolChunkView| chunk_of(s)),
            None => Seq::<SourceChunkView>::empty(),
        },
    }
}

/// The language a file is parsed in: that of its extension, or `unknown`.
pub open spec fn parse_language(rel_path: Seq<char>) -> Seq<char> {
    match path_language(rel_path) {
        Some(l) => l,
        None => "unknown"@,
    }
}

/// What a file is taken apart into, if the parser takes its grammar.
pub open spec fn file_chunks(rel_path: Seq<char>, content: Seq<char>) -> Option<FileChunksView> {
    let language = parse_language(rel_path);
    match config_of(language) {
        Some(cfg) => if grammar_error(cfg.grammar) is Some {
            None
        } else {
            Some(chunks_of(rel_path, content, language, parsed(cfg.grammar, content)))
        },
        None => Some(chunks_of(rel_path, content, language, None)),
    }
}

/// Builds the item of a file from what it was taken apart into.
pub fn item_from_chunks(rel_path: &str, content: &str, chunks: &Option<FileChunks>) -> (r:
    SourceItem)
    ensures
        r.deep_view() == item_of(rel_path@, content@, chunks.deep_view()),
{
    let mut children: Vec<SourceChunk> = Vec::new();
    let mut module_doc: Option<String> = None;
    let ghost want = item_of(rel_path@, content@, chunks.deep_view()).children;
    assert(children.deep_view() =~= Seq::<SourceChunkView>::empty());
    if let Some(c) = chunks {
        module_doc = c.module_doc.clone();
        let mut i: usize = 0;
        assert(children.deep_view() =~= want.take(0));
        while i < c.symbols.len()
            invariant
                i <= c.symbols@.len(),
                want == c.deep_view().symbols.map_values(|s: SymbolChunkView| chunk_of(s)),
                children.deep_view() == want.take(i as int),
            decreases c.symbols@.len() - i,
        {
            let ghost before = children.deep_view();
            let s = &c.symbols[i];
            let child = SourceChunk {
                name: s.name.clone(),
                kind: s.kind.clone(),
                content: s.body.clone(),
                signature: s.signature.clone(),
                doc_comment: s.doc_comment.clone(),
                start_line: Some(s.start_line),
                end_line: Some(s.end_line),
                references: s.references.clone(),
            };
            let ghost cv = child.deep_view();
            children.push(child);
            proof {
                assert(want[i as int] == cv);
                assert(children.deep_view() =~= before.push(cv));
                assert(want.take(i + 1) =~= want.take(i as int).push(want[i as int]));
            }
            i += 1;
        }
        assert(want.take(i as int) =~= want);
    }
    let language = match detect_language(rel_path) {
        Some(l) => Some(l.to_string()),
        None => None,
    };
    SourceItem {
        source_path: rel_path.to_string(),
        content: content.to_string(),
        content_hash: short_hash(content, 16),
        language,
        module_doc,
        children,
    }
}

/// Builds the item of a file: parsed in its language and taken apart.
pub fn build_item(rel_path: &str, content: &str) -> (r: SourceItem)
    ensures
        r.deep_view() == item_of(rel_path@, content@, file_chunks(rel_path@, content@)),
{
    let language = match detect_language(rel_path) {
        Some(l) => l,
        None => "unknown",
    };
    let chunker = TreeSitterChunker::new();
    let chunks = match chunker.chunk(rel_path, content, language) {
        Ok(c) => Some(c),
        Err(_) => None,
    };
    item_from_chunks(rel_path, content, &chunks)
}

/// The items of the files that are new or changed, in order.
pub open spec fn changed_files(files: Seq<ContentView>, ctx: FetchContextView) -> Seq<
    SourceItemView,
>
    decreases files.len(),
{
    if files.len() == 0 {
        Seq::<SourceItemView>::empty()
    } else {
        let f = files.last();
        if unchanged(ctx, f.path, short_hash_of(f.content, 16)) {
            changed_files(files.drop_last(), ctx)
        } else {
            changed_files(files.drop_last(), ctx).push(
                item_of(f.path, f.content, file_chunks(f.path, f.content)),
            )
        }
    }
}

/// The outcome of a run, given the files that could be read, the deleted paths
/// and the current commit: files whose hash is stored are left out unless the
/// run is full, and the commit is the cursor.
pub fn fetch_result(
    files: &Vec<Content>,
    deletions: Vec<String>,
    head: &str,
    ctx: &FetchContext,
) -> (r: FetchResult)
    ensures
        r.deep_view() == (FetchResultView {
            items: changed_files(files.deep_view(), ctx.deep_view()),
            deletions: deletions.deep_view(),
            cursor: Some(head@),
        }),
{
    let ghost fv = files.deep_view();
    let ghost cv = ctx.deep_view();
    let mut items: Vec<SourceItem> = Vec::new();
    let mut i: usize = 0;
    assert(items.deep_view() =~= changed_files(fv.take(0), cv));
    while i < files.len()
        invariant
            i <= files@.len(),
            fv == files.deep_view(),
            cv == ctx.deep_view(),
            items.deep_view() == changed_files(fv.take(i as int), cv),
        decreases files@.len() - i,
    {
        let f = &files[i];
        proof {
            assert(fv.take(i + 1).drop_last() =~= fv.take(i as int));
            assert(fv.take(i + 1).last() == f.deep_view());
        }
        let hash = short_hash(f.content.as_str(), 16);
        if !is_unchanged(ctx, f.path.as_str(), hash.as_str()) {
            let ghost before = items.deep_view();
            let item = build_item(f.path.as_str(), f.content.as_str());
            let ghost iv = item.deep_view();
            items.push(item);
            assert(items.deep_view() =~= before.push(iv));
        }
        i += 1;
    }
    assert(fv.take(i as int) =~= fv);
    FetchResult { items, deletions, cursor: Some(head.to_string()) }
}

/// The item of a file.
pub open spec fn file_item(f: ContentView) -> SourceItemView {
    item_of(f.path, f.content, file_chunks(f.path, f.content))
}

/// A full run hands over every file that could be read, in order.
pub proof fn law_full_runs_skip_nothing(files: Seq<ContentView>, ctx: FetchContextView)
    requires
        ctx.full,
    ensures
        changed_files(files, ctx) == files.map_values(|f: ContentView| file_item(f)),
    decreases files.len(),
{
    if files.len() > 0 {
        law_full_runs_skip_nothing(files.drop_last(), ctx);
    }
    assert(changed_files(files, ctx) =~= files.map_values(|f: ContentView| file_item(f)));
}

/// An item is handed over exactly if it is that of a file which is new or
/// changed.
pub proof fn law_changed_files_are_handed_over(
    files: Seq<ContentView>,
    ctx: FetchContextView,
    x: SourceItemView,
)
    ensures
        changed_files(files, ctx).contains(x) <==> exists|i: int|
            0 <= i < files.len() && file_item(#[trigger] files[i]) == x && !unchanged(
                ctx,
                files[i].path,
                x.content_hash,
            ),
    decreases files.len(),
{
    if files.len() > 0 {
        let head = files.drop_last();
        let f = files.last();
        let before = changed_files(head, ctx);
        law_changed_files_are_handed_over(head, ctx, x);
        if before.contains(x) {
            let i = choose|i: int|
                0 <= i < head.len() && file_item(#[trigger] head[i]) == x && !unchanged(
                    ctx,
                    head[i].path,
                    x.content_hash,
                );
            assert(files[i] == head[i]);
            let k = choose|k: int| 0 <= k < before.len() && before[k] == x;
            assert(changed_files(files, ctx)[k] == x);
        }
        if file_item(f) == x && !unchanged(ctx, f.path, x.content_hash) {
            assert(files[files.len() - 1] == f);
            assert(changed_files(files, ctx)[before.len() as int] == x);
        }
        if exists|i: int|
            0 <= i < files.len() && file_item(#[trigger] files[i]) == x && !unchanged(
                ctx,
                files[i].path,
                x.content_hash,
            ) {
            let i = choose|i: int|
                0 <= i < files.len() && file_item(#[trigger] files[i]) == x && !unchanged(
                    ctx,
                    files[i].path,
                    x.content_hash,
                );
            if i < head.len() {
                assert(head[i] == files[i]);
            }
        }
        if changed_files(files, ctx).contains(x) && !before.contains(x) {
            let k = choose|k: int|
                0 <= k < changed_files(files, ctx).len() && changed_files(files, ctx)[k] == x;
            if k < before.len() {
                assert(before[k] == x);
            }
            assert(files[files.len() - 1] == f);
        }
    }
}

/// An item says what its file is: the path, the whole content, the beginning of
/// the content's hash and the language; its children are the file's symbols, in
/// order, each with all its parts. A file that was not taken apart has none.
pub proof fn law_items_keep_their_parts(
    rel_path: Seq<char>,
    content: Seq<char>,
    chunks: Option<FileChunksView>,
)
    ensures
        ({
            let item = item_of(rel_path, content, chunks);
            &&& item.source_path == rel_path
            &&& item.content == content
            &&& item.content_hash == short_hash_of(content, 16)
            &&& item.language == path_language(rel_path)
            &&& chunks is None ==> item.children.len() == 0 && item.module_doc is None
            &&& chunks matches Some(c) ==> {
                &&& item.module_doc == c.module_doc
                &&& item.children.len() == c.symbols.len()
                &&& forall|k: int|
                    0 <= k < c.symbols.len() ==> {
                        let child = #[trigger] item.children[k];
                        &&& child.name == c.symbols[k].name
                        &&& child.kind == c.symbols[k].kind
                        &&& child.content == c.symbols[k].body
                        &&& child.signature == c.symbols[k].signature
                        &&& child.doc_comment == c.symbols[k].doc_comment
                        &&& child.start_line == Some(c.symbols[k].start_line)
                        &&& child.end_line == Some(c.symbols[k].end_line)
                        &&& child.references == c.symbols[k].references
                    }
            }
        }),
{
}

/// A run looks at what changed since its cursor exactly if it has one and is not
/// full; any other looks at all files.
pub proof fn law_scope_of_a_run(ctx: FetchContextView)
    ensures
        ctx.full || ctx.cursor is None ==> scope_of(ctx) is All,
        !ctx.full && ctx.cursor is Some ==> scope_of(ctx) == FileScopeView::Since(ctx.cursor->0),
{
}

/// Files whose hashes are stored are not handed over again, unless the run is full.
pub proof fn law_stored_files_are_not_handed_over_again(
    files: Seq<ContentView>,
    ctx: FetchContextView,
)
    requires
        !ctx.full,
        forall|k: int|
            0 <= k < files.len() ==> ctx.stored_hashes.contains_key((#[trigger] files[k]).path)
                && ctx.stored_hashes[files[k].path] == short_hash_of(files[k].content, 16),
    ensures
        changed_files(files, ctx).len() == 0,
    decreases files.len(),
{
    if files.len() > 0 {
        let head = files.drop_last();
        assert(forall|k: int| 0 <= k < head.len() ==> #[trigger] head[k] == files[k]);
        law_stored_files_are_not_handed_over_again(head, ctx);
        assert(files[files.len() - 1] == files.last());
    }
}

/// A file that is not stored, or is stored with another hash, is handed over with
/// its path and its content.
pub proof fn law_new_files_are_handed_over(files: Seq<ContentView>, ctx: FetchContextView, k: int)
    requires
        0 <= k < files.len(),
        ctx.full || !ctx.stored_hashes.contains_key(files[k].path)
            || ctx.stored_hashes[files[k].path] != short_hash_of(files[k].content, 16),
    ensures
        exists|m: int|
            0 <= m < changed_files(files, ctx).len() && (#[trigger] changed_files(
                files,
                ctx,
            )[m]).source_path == files[k].path && changed_files(files, ctx)[m].content
                == files[k].content,
{
    let x = file_item(files[k]);
    law_changed_files_are_handed_over(files, ctx, x);
    let all = changed_files(files, ctx);
    assert(all.contains(x));
    let m = choose|m: int| 0 <= m < all.len() && all[m] == x;
    assert(all[m].source_path == files[k].path);
}

} // verus!
