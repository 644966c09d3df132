//! From an item to the documents of a store: what is embedded for it, what is
//! shown for it, and what is kept.
use vstd::prelude::*;

use crate::chunk::{SymbolChunk, SymbolChunkView};
use crate::hash::{short_hash, short_hash_of};
use crate::indexer::docstring::{file_toc_text, symbol_embed_text, symbol_text, toc_text};
use crate::indexer::prose::{doc_summary, doc_text, has_code_structure, is_code, prose_doc_summary,
    prose_doc_text, prose_section_summary, prose_section_text, section_summary, section_text};
use crate::store::{ChunkKind, VectorDocument, VectorDocumentView};
use crate::summarize::rollup::{
    action_of, law_every_reply_finds_its_place, progress_after, FileSummaryResult,
    FileSummaryResultView, SummaryActionView, SymbolSummaryResultView,
};
use crate::summarize::prompts::{file_message, law_file_message_holds_the_file};
use crate::summarize::{FileSummaryInput, FileSummaryInputView};
use crate::tap::{SourceChunkView, SourceItem, SourceItemView};
use crate::text::{has_prefix, has_suffix, occurs, same, trimmed};

verus! {

/// What is embedded: summaries, or the code's own documentation.
#[derive(Clone, Copy, PartialEq, Eq, Structural, Debug)]
pub enum EmbedMode {
    Summary,
    Docstring,
}

impl DeepView for EmbedMode {
    type V = EmbedMode;

    open spec fn deep_view(&self) -> EmbedMode {
        *self
    }
}

impl EmbedMode {
    /// The mode's name.
    pub open spec fn name(self) -> Seq<char> {
        match self {
            EmbedMode::Summary => "summary"@,
            EmbedMode::Docstring => "docstring"@,
        }
    }

    /// Reads the configured mode; anything but `docstring` is summaries.
    pub fn from_config(s: &str) -> (r: EmbedMode)
        ensures
            r == if s@ == "docstring"@ {
                EmbedMode::Docstring
            } else {
                EmbedMode::Summary
            },
    {
        if same(s, "docstring") {
            EmbedMode::Docstring
        } else {
            EmbedMode::Summary
        }
    }

    /// The mode as text.
    pub fn as_str(self) -> (r: &'static str)
        ensures
            r@ == self.name(),
    {
        match self {
            EmbedMode::Summary => "summary",
            EmbedMode::Docstring => "docstring",
        }
    }
}

/// A text to embed and the text to show for it.
#[derive(Debug)]
pub struct TextPair {
    pub embed: String,
    pub summary: String,
}

/// What a [`TextPair`] holds.
#[verifier::ext_equal]
pub struct TextPairView {
    pub embed: Seq<char>,
    pub summary: Seq<char>,
}

impl DeepView for TextPair {
    type V = TextPairView;

    open spec fn deep_view(&self) -> TextPairView {
        TextPairView {
            embed: self.embed@,
            summary: self.summary@,
        }
    }
}

impl Clone for TextPair {
    fn clone(&self) -> (r: Self)
        ensures
            r.deep_view() == self.deep_view(),
    {
        TextPair {
            embed: self.embed.clone(),
            summary: self.summary.clone(),
        }
    }
}

/// What is embedded and shown for an item and for each of its children.
#[derive(Debug)]
pub struct ItemTexts {
    pub file: TextPair,
    pub children: Vec<TextPair>,
}

/// What a [`ItemTexts`] holds.
#[verifier::ext_equal]
pub struct ItemTextsView {
    pub file: TextPairView,
    pub children: Seq<TextPairView>,
}

impl DeepView for ItemTexts {
    type V = ItemTextsView;

    open spec fn deep_view(&self) -> ItemTextsView {
        ItemTextsView {
            file: self.file.deep_view(),
            children: self.children.deep_view(),
        }
    }
}

impl Clone for ItemTexts {
    fn clone(&self) -> (r: Self)
        ensures
            r.deep_view() == self.deep_view(),
    {
        ItemTexts {
            file: self.file.clone(),
            children: self.children.clone(),
        }
    }
}

/// What became of an item.
#[derive(Debug)]
pub struct PipelineResult {
    pub documents: Vec<VectorDocument>,
    pub symbol_count: usize,
    pub content_hash: String,
}

/// What a [`PipelineResult`] holds.
#[verifier::ext_equal]
pub struct PipelineResultView {
    pub documents: Seq<VectorDocumentView>,
    pub symbol_count: usize,
    pub content_hash: Seq<char>,
}

impl DeepView for PipelineResult {
    type V = PipelineResultView;

    open spec fn deep_view(&self) -> PipelineResultView {
        PipelineResultView {
            documents: self.documents.deep_view(),
            symbol_count: self.symbol_count,
            content_hash: self.content_hash@,
        }
    }
}

impl Clone for PipelineResult {
    fn clone(&self) -> (r: Self)
        ensures
            r.deep_view() == self.deep_view(),
    {
        PipelineResult {
            documents: self.documents.clone(),
            symbol_count: self.symbol_count,
            content_hash: self.content_hash.clone(),
        }
    }
}

/// Summaries were asked for, but there is no summarizer.
#[derive(Clone, Copy, PartialEq, Eq, Structural, Debug)]
pub struct NoSummarizer;

impl NoSummarizer {
    /// The error as text.
    pub fn message(self) -> (r: String)
        ensures
            r@ == "summary embed mode requires a summarizer"@,
    {
        "summary embed mode requires a summarizer".to_string()
    }
}

/// The language of an item, or `unknown`.
pub open spec fn language_name(item: SourceItemView) -> Seq<char> {
    match item.language {
        Some(l) => l,
        None => "unknown"@,
    }
}

/// The same text for embedding and for display.
pub open spec fn both(t: Seq<char>) -> TextPairView {
    TextPairView { embed: t, summary: t }
}

/// The texts of summarized items.
pub open spec fn summary_texts_of(r: FileSummaryResultView) -> ItemTextsView {
    ItemTextsView {
        file: both(r.file_summary),
        children: r.symbol_summaries.map_values(|s: SymbolSummaryResultView| both(s.summary)),
    }
}

/// The texts of a code item, made from its documentation.
pub open spec fn code_texts(item: SourceItemView) -> ItemTextsView {
    ItemTextsView {
        file: both(toc_text(item.source_path, item.module_doc, item.children)),
        children: item.children.map_values(
            |c: SourceChunkView| both(symbol_text(c.doc_comment, c.signature, c.name)),
        ),
    }
}

/// The texts of a prose item: the full text is embedded, a short one shown.
pub open spec fn prose_texts(item: SourceItemView) -> ItemTextsView {
    ItemTextsView {
        file: TextPairView { embed: doc_text(item.content), summary: doc_summary(item.content) },
        children: item.children.map_values(
            |c: SourceChunkView|
                TextPairView {
                    embed: section_text(c.name, c.content),
                    summary: section_summary(c.name, c.content),
                },
        ),
    }
}

/// The texts of an item without a summarizer in the loop.
pub open spec fn docstring_texts_of(item: SourceItemView) -> ItemTextsView {
    if is_code(item.module_doc, item.children) {
        code_texts(item)
    } else {
        prose_texts(item)
    }
}

/// What is embedded and shown for an item: in summary mode its summaries, which
/// only a summarizer can give; in docstring mode its own text.
pub open spec fn texts_of(
    item: SourceItemView,
    mode: EmbedMode,
    summaries: Option<FileSummaryResultView>,
) -> Option<ItemTextsView> {
    match mode {
        EmbedMode::Summary => match summaries {
            Some(s) => Some(summary_texts_of(s)),
            None => None,
        },
        EmbedMode::Docstring => Some(docstring_texts_of(item)),
    }
}

/// A child as the summarizer's symbol.
pub open spec fn symbol_of_chunk(c: SourceChunkView) -> SymbolChunkView {
    SymbolChunkView {
        name: c.name,
        kind: c.kind,
        body: c.content,
        signature: c.signature,
        doc_comment: c.doc_comment,
        start_line: match c.start_line {
            Some(n) => n,
            None => 0,
        },
        end_line: match c.end_line {
            Some(n) => n,
            None => 0,
        },
        references: c.references,
    }
}

fn language_of_item(item: &SourceItem) -> (r: &str)
    ensures
        r@ == language_name(item.deep_view()),
{
    match &item.language {
        Some(l) => l.as_str(),
        None => "unknown",
    }
}

fn pair(t: String) -> (r: TextPair)
    ensures
        r.deep_view() == both(t@),
{
    TextPair { embed: t.clone(), summary: t }
}

/// What a summarizer is told about an item.
pub open spec fn input_of(item: SourceItemView) -> FileSummaryInputView {
    FileSummaryInputView {
        file_path: item.source_path,
        content: item.content,
        imports: Seq::empty(),
        language: language_name(item),
    }
}

/// What a summarizer is told about an item.
pub fn summary_input(item: &SourceItem) -> (r: FileSummaryInput)
    ensures
        r.deep_view() == (FileSummaryInputView {
            file_path: item.source_path@,
            content: item.content@,
            imports: Seq::empty(),
            language: language_name(item.deep_view()),
        }),
        r.deep_view() == input_of(item.deep_view()),
{
    let r = FileSummaryInput {
        file_path: item.source_path.clone(),
        content: item.content.clone(),
        imports: Vec::new(),
        language: language_of_item(item).to_string(),
    };
    assert(r.imports.deep_view() =~= Seq::empty());
    r
}

/// An item's children as the summarizer's symbols.
pub fn summary_symbols(item: &SourceItem) -> (r: Vec<SymbolChunk>)
    ensures
        r.deep_view() == item.deep_view().children.map_values(
            |c: SourceChunkView| symbol_of_chunk(c),
        ),
{
    let ghost want = item.deep_view().children.map_values(|c: SourceChunkView| symbol_of_chunk(c));
    let mut out: Vec<SymbolChunk> = Vec::new();
    let mut i: usize = 0;
    assert(out.deep_view() =~= want.take(0));
    while i < item.children.len()
        invariant
            i <= item.children@.len(),
            want == item.deep_view().children.map_values(|c: SourceChunkView| symbol_of_chunk(c)),
            out.deep_view() == want.take(i as int),
        decreases item.children@.len() - i,
    {
        let ghost before = out.deep_view();
        let c = &item.children[i];
        let s = SymbolChunk {
            name: c.name.clone(),
            kind: c.kind.clone(),
            body: c.content.clone(),
            signature: c.signature.clone(),
            doc_comment: c.doc_comment.clone(),
            start_line: match c.start_line {
                Some(n) => n,
                None => 0,
            },
            end_line: match c.end_line {
                Some(n) => n,
                None => 0,
            },
            references: c.references.clone(),
        };
        let ghost sv = s.deep_view();
        out.push(s);
        proof {
            assert(want[i as int] == sv);
            assert(out.deep_view() =~= before.push(sv));
            assert(want.take(i + 1) =~= want.take(i as int).push(want[i as int]));
        }
        i += 1;
    }
    assert(want.take(i as int) =~= want);
    out
}

fn as_text(t: &Option<String>) -> (r: Option<&str>)
    ensures
        r.deep_view() == t.deep_view(),
{
    match t {
        Some(s) => Some(s.as_str()),
        None => None,
    }
}

fn docstring_texts(item: &SourceItem) -> (r: ItemTexts)
    ensures
        r.deep_view() == docstring_texts_of(item.deep_view()),
{
    let ghost iv = item.deep_view();
    let ghost want = docstring_texts_of(iv).children;
    let code = has_code_structure(as_text(&item.module_doc), item.children.as_slice());
    let file = if code {
        pair(
            file_toc_text(
                item.source_path.as_str(),
                as_text(&item.module_doc),
                item.children.as_slice(),
            ),
        )
    } else {
        TextPair {
            embed: prose_doc_text(item.content.as_str()),
            summary: prose_doc_summary(item.content.as_str()),
        }
    };
    let mut children: Vec<TextPair> = Vec::new();
    let mut i: usize = 0;
    assert(children.deep_view() =~= want.take(0));
    while i < item.children.len()
        invariant
            i <= item.children@.len(),
            iv == item.deep_view(),
            want == docstring_texts_of(iv).children,
            code == is_code(iv.module_doc, iv.children),
            children.deep_view() == want.take(i as int),
        decreases item.children@.len() - i,
    {
        let ghost before = children.deep_view();
        let c = &item.children[i];
        assert(iv.children[i as int] == c.deep_view());
        let p = if code {
            pair(
                symbol_embed_text(as_text(&c.doc_comment), as_text(&c.signature), c.name.as_str()),
            )
        } else {
            TextPair {
                embed: prose_section_text(c.name.as_str(), c.content.as_str()),
                summary: prose_section_summary(c.name.as_str(), c.content.as_str()),
            }
        };
        let ghost pv = p.deep_view();
        children.push(p);
        proof {
            assert(want[i as int] == pv);
            assert(children.deep_view() =~= before.push(pv));
            assert(want.take(i + 1) =~= want.take(i as int).push(want[i as int]));
        }
        i += 1;
    }
    assert(want.take(i as int) =~= want);
    ItemTexts { file, children }
}

fn summary_texts(s: &FileSummaryResult) -> (r: ItemTexts)
    ensures
        r.deep_view() == summary_texts_of(s.deep_view()),
{
    let ghost want = summary_texts_of(s.deep_view()).children;
    let mut children: Vec<TextPair> = Vec::new();
    let mut i: usize = 0;
    assert(children.deep_view() =~= want.take(0));
    while i < s.symbol_summaries.len()
        invariant
            i <= s.symbol_summaries@.len(),
            want == summary_texts_of(s.deep_view()).children,
            children.deep_view() == want.take(i as int),
        decreases s.symbol_summaries@.len() - i,
    {
        let ghost before = children.deep_view();
        let p = pair(s.symbol_summaries[i].summary.clone());
        let ghost pv = p.deep_view();
        children.push(p);
        proof {
            assert(want[i as int] == pv);
            assert(children.deep_view() =~= before.push(pv));
            assert(want.take(i + 1) =~= want.take(i as int).push(want[i as int]));
        }
        i += 1;
    }
    assert(want.take(i as int) =~= want);
    ItemTexts { file: pair(s.file_summary.clone()), children }
}

/// Chooses what is embedded and shown for an item. In summary mode the
/// summaries have to be there; in docstring mode they are not asked for.
pub fn item_texts(
    item: &SourceItem,
    mode: EmbedMode,
    summaries: &Option<FileSummaryResult>,
) -> (r: Result<ItemTexts, NoSummarizer>)
    ensures
        match r {
            Ok(t) => texts_of(item.deep_view(), mode, summaries.deep_view()) == Some(
                t.deep_view(),
            ),
            Err(_) => texts_of(item.deep_view(), mode, summaries.deep_view()) is None,
        },
{
    match mode {
        EmbedMode::Summary => match summaries {
            Some(s) => Ok(summary_texts(s)),
            None => Err(NoSummarizer),
        },
        EmbedMode::Docstring => Ok(docstring_texts(item)),
    }
}

/// How many children get a document: those that have a text.
pub open spec fn child_count(item: SourceItemView, texts: ItemTextsView) -> int {
    if item.children.len() < texts.children.len() {
        item.children.len() as int
    } else {
        texts.children.len() as int
    }
}

/// The texts to embed in order: the file's, then the children's.
pub open spec fn embed_list(item: SourceItemView, texts: ItemTextsView) -> Seq<Seq<char>> {
    seq![texts.file.embed] + texts.children.take(child_count(item, texts)).map_values(
        |p: TextPairView| p.embed,
    )
}

/// The texts to embed in order: the file's, then the children's.
pub fn texts_to_embed(item: &SourceItem, texts: &ItemTexts) -> (r: Vec<String>)
    ensures
        r.deep_view() == embed_list(item.deep_view(), texts.deep_view()),
{
    let ghost tv = texts.deep_view();
    let ghost want = embed_list(item.deep_view(), tv);
    let n: usize = if item.children.len() < texts.children.len() {
        item.children.len()
    } else {
        texts.children.len()
    };
    let mut out: Vec<String> = Vec::new();
    out.push(texts.file.embed.clone());
    let mut i: usize = 0;
    assert(out.deep_view() =~= want.take(1));
    while i < n
        invariant
            i <= n <= texts.children@.len(),
            tv == texts.deep_view(),
            n == child_count(item.deep_view(), tv),
            want == embed_list(item.deep_view(), tv),
            out.deep_view() == want.take(1 + i),
        decreases n - i,
    {
        let ghost before = out.deep_view();
        let t = texts.children[i].embed.clone();
        let ghost t0 = t@;
        out.push(t);
        proof {
            assert(want[1 + i] == t0);
            assert(out.deep_view() =~= before.push(t0));
            assert(want.take(1 + i + 1) =~= want.take(1 + i).push(want[1 + i]));
        }
        i += 1;
    }
    assert(want.take(1 + i) =~= want);
    out
}

/// A document's id: the first 16 digits of the hash of its path, its kind, its
/// symbol's name and its content.
pub open spec fn id_of(
    file_path: Seq<char>,
    kind: ChunkKind,
    symbol_name: Option<Seq<char>>,
    content: Seq<char>,
) -> Seq<char> {
    let name = match symbol_name {
        Some(n) => n,
        None => ""@,
    };
    short_hash_of(file_path + kind.name() + name + content, 16)
}

/// Deterministic document id: indexing the same content again gives the same
/// ids, and so replaces the documents.
pub fn document_id(
    file_path: &str,
    chunk_kind: ChunkKind,
    symbol_name: Option<&str>,
    content: &str,
) -> (r: String)
    ensures
        r@ == id_of(file_path@, chunk_kind, symbol_name.deep_view(), content@),
        r@.len() == 16,
{
    let mut all = file_path.to_string();
    all.append(chunk_kind.as_str());
    match symbol_name {
        Some(n) => all.append(n),
        None => all.append(""),
    }
    all.append(content);
    short_hash(all.as_str(), 16)
}

/// The document of a file.
pub open spec fn file_document(
    item: SourceItemView,
    texts: ItemTextsView,
    vector: Seq<u32>,
) -> VectorDocumentView {
    VectorDocumentView {
        id: id_of(item.source_path, ChunkKind::File, None, item.content),
        vector,
        summary: texts.file.summary,
        file_path: item.source_path,
        chunk_kind: ChunkKind::File,
        symbol_name: None,
        symbol_kind: None,
        start_line: None,
        end_line: None,
        language: Some(language_name(item)),
        content_hash: Some(item.content_hash),
        calls: None,
        called_by: None,
        last_used_at: None,
    }
}

/// The document of the `i`-th child.
pub open spec fn child_document(
    item: SourceItemView,
    texts: ItemTextsView,
    vector: Seq<u32>,
    i: int,
) -> VectorDocumentView {
    let c = item.children[i];
    VectorDocumentView {
        id: id_of(item.source_path, ChunkKind::Symbol, Some(c.name), c.content),
        vector,
        summary: texts.children[i].summary,
        file_path: item.source_path,
        chunk_kind: ChunkKind::Symbol,
        symbol_name: Some(c.name),
        symbol_kind: Some(c.kind),
        start_line: c.start_line,
        end_line: c.end_line,
        language: Some(language_name(item)),
        content_hash: None,
        calls: Some(c.references),
        called_by: None,
        last_used_at: None,
    }
}

/// The documents of an item: the file's, then the children's.
pub open spec fn documents_of(
    item: SourceItemView,
    texts: ItemTextsView,
    vectors: Seq<Seq<u32>>,
) -> Seq<VectorDocumentView> {
    seq![file_document(item, texts, vectors[0])] + Seq::new(
        child_count(item, texts) as nat,
        |i: int| child_document(item, texts, vectors[i + 1], i),
    )
}

/// What becomes of an item, given the embeddings of its texts.
pub open spec fn result_of(
    item: SourceItemView,
    texts: ItemTextsView,
    vectors: Seq<Seq<u32>>,
) -> PipelineResultView {
    PipelineResultView {
        documents: documents_of(item, texts, vectors),
        symbol_count: item.children.len() as usize,
        content_hash: item.content_hash,
    }
}

/// Builds the documents of an item from the embeddings of its texts.
pub fn process_item(item: &SourceItem, texts: &ItemTexts, vectors: &Vec<Vec<u32>>) -> (r:
    PipelineResult)
    requires
        vectors@.len() == 1 + child_count(item.deep_view(), texts.deep_view()),
    ensures
        r.deep_view() == (PipelineResultView {
            documents: documents_of(item.deep_view(), texts.deep_view(), vectors.deep_view()),
            symbol_count: item.children@.len() as usize,
            content_hash: item.content_hash@,
        }),
        r.deep_view() == result_of(item.deep_view(), texts.deep_view(), vectors.deep_view()),
{
    let ghost iv = item.deep_view();
    let ghost tv = texts.deep_view();
    let ghost vv = vectors.deep_view();
    let ghost want = documents_of(iv, tv, vv);
    let n: usize = if item.children.len() < texts.children.len() {
        item.children.len()
    } else {
        texts.children.len()
    };
    let language = language_of_item(item);
    let mut documents: Vec<VectorDocument> = Vec::new();
    let doc = VectorDocument {
        id: document_id(item.source_path.as_str(), ChunkKind::File, None, item.content.as_str()),
        vector: vectors[0].clone(),
        summary: texts.file.summary.clone(),
        file_path: item.source_path.clone(),
        chunk_kind: ChunkKind::File,
        symbol_name: None,
        symbol_kind: None,
        start_line: None,
        end_line: None,
        language: Some(language.to_string()),
        content_hash: Some(item.content_hash.clone()),
        calls: None,
        called_by: None,
        last_used_at: None,
    };
    assert(doc.deep_view() =~= file_document(iv, tv, vv[0]));
    documents.push(doc);
    let mut i: usize = 0;
    assert(documents.deep_view() =~= want.take(1));
    while i < n
        invariant
            i <= n,
            n <= texts.children@.len(),
            n <= item.children@.len(),
            vectors@.len() == 1 + n,
            n == child_count(iv, tv),
            iv == item.deep_view(),
            tv == texts.deep_view(),
            vv == vectors.deep_view(),
            language@ == language_name(iv),
            want == documents_of(iv, tv, vv),
            documents.deep_view() == want.take(1 + i),
        decreases n - i,
    {
        let ghost before = documents.deep_view();
        let c = &item.children[i];
        assert(iv.children[i as int] == c.deep_view());
        let d = VectorDocument {
            id: document_id(
                item.source_path.as_str(),
                ChunkKind::Symbol,
                Some(c.name.as_str()),
                c.content.as_str(),
            ),
            vector: vectors[i + 1].clone(),
            summary: texts.children[i].summary.clone(),
            file_path: item.source_path.clone(),
            chunk_kind: ChunkKind::Symbol,
            symbol_name: Some(c.name.clone()),
            symbol_kind: Some(c.kind.clone()),
            start_line: c.start_line,
            end_line: c.end_line,
            language: Some(language.to_string()),
            content_hash: None,
            calls: Some(c.references.clone()),
            called_by: None,
            last_used_at: None,
        };
        let ghost dv = d.deep_view();
        proof {
            assert(vv[i + 1] == vectors@[i + 1].deep_view());
            assert(dv =~= child_document(iv, tv, vv[i + 1], i as int));
        }
        documents.push(d);
        proof {
            assert(want[1 + i] == dv);
            assert(documents.deep_view() =~= before.push(dv));
            assert(want.take(1 + i + 1) =~= want.take(1 + i).push(want[1 + i]));
        }
        i += 1;
    }
    assert(want.take(1 + i) =~= want);
    PipelineResult {
        documents,
        symbol_count: item.children.len(),
        content_hash: item.content_hash.clone(),
    }
}

// ---------------------------------------------------------------------------
// Laws
// ---------------------------------------------------------------------------

/// A mode is read back from its own name, and no two modes share one.
pub proof fn law_mode_names_read_back(m: EmbedMode)
    ensures
        m == if m.name() == "docstring"@ {
            EmbedMode::Docstring
        } else {
            EmbedMode::Summary
        },
{
    reveal_strlit("docstring");
    reveal_strlit("summary");
    assert("docstring"@.len() != "summary"@.len());
}

/// In docstring mode no summary is ever needed: every item has its texts, one
/// pair per child.
pub proof fn law_docstring_mode_needs_no_summarizer(
    item: SourceItemView,
    summaries: Option<FileSummaryResultView>,
)
    ensures
        texts_of(item, EmbedMode::Docstring, summaries) == Some(docstring_texts_of(item)),
        docstring_texts_of(item).children.len() == item.children.len(),
{
}

/// Every document of an item carries the item's path; the first is the file's
/// and alone carries the content hash; there is one per text to embed.
pub proof fn law_documents_of_an_item(
    item: SourceItemView,
    texts: ItemTextsView,
    vectors: Seq<Seq<u32>>,
    k: int,
)
    requires
        vectors.len() == embed_list(item, texts).len(),
        0 <= k < documents_of(item, texts, vectors).len(),
    ensures
        documents_of(item, texts, vectors).len() == embed_list(item, texts).len(),
        documents_of(item, texts, vectors)[k].file_path == item.source_path,
        documents_of(item, texts, vectors)[k].vector == vectors[k],
        documents_of(item, texts, vectors)[k].chunk_kind == ChunkKind::File <==> k == 0,
        documents_of(item, texts, vectors)[k].content_hash is Some <==> k == 0,
{
}

/// Indexing the same item again gives documents of the same ids, whatever their
/// texts and embeddings are by then.
pub proof fn law_ids_are_stable(
    item: SourceItemView,
    t1: ItemTextsView,
    v1: Seq<Seq<u32>>,
    t2: ItemTextsView,
    v2: Seq<Seq<u32>>,
    k: int,
)
    requires
        0 <= k < documents_of(item, t1, v1).len(),
        0 <= k < documents_of(item, t2, v2).len(),
    ensures
        documents_of(item, t1, v1)[k].id == documents_of(item, t2, v2)[k].id,
{
}

/// In summary mode what is embedded and what is shown are both what the summarizer
/// said: for the file its summary, for the `k`-th child the `k`-th symbol's.
/// Without summaries there are no texts.
pub proof fn law_summaries_are_embedded_and_shown(
    item: SourceItemView,
    summaries: Option<FileSummaryResultView>,
)
    ensures
        summaries is None <==> texts_of(item, EmbedMode::Summary, summaries) is None,
        summaries matches Some(s) ==> {
            let t = texts_of(item, EmbedMode::Summary, summaries)->0;
            &&& t.file.embed == s.file_summary
            &&& t.file.summary == s.file_summary
            &&& t.children.len() == s.symbol_summaries.len()
            &&& forall|k: int|
                0 <= k < t.children.len() ==> (#[trigger] t.children[k]).embed
                    == s.symbol_summaries[k].summary && t.children[k].summary
                    == s.symbol_summaries[k].summary
        },
{
}

/// What a summarizer replied, question by question, reaches the documents: of an
/// item of ordinary size that was summarized, the first reply is embedded and
/// shown for the item, and the one after the `k`-th child's question for the
/// `k`-th child.
pub proof fn law_replies_reach_the_documents(
    item: SourceItemView,
    file: FileSummaryInputView,
    threshold: int,
    replies: Seq<Seq<char>>,
    result: FileSummaryResultView,
    vectors: Seq<Seq<u32>>,
)
    requires
        0 <= threshold,
        file.content.len() < 4 * (threshold + 1),
        replies.len() == item.children.len() + 1,
        vectors.len() == item.children.len() + 1,
        ({
            let symbols = item.children.map_values(|c: SourceChunkView| symbol_of_chunk(c));
            action_of(file, symbols, threshold, progress_after(file, symbols, threshold, replies))
                == SummaryActionView::Done(result)
        }),
    ensures
        ({
            let t = texts_of(item, EmbedMode::Summary, Some(result))->0;
            let docs = documents_of(item, t, vectors);
            &&& embed_list(item, t) == replies
            &&& docs.len() == replies.len()
            &&& forall|k: int|
                0 <= k < docs.len() ==> (#[trigger] docs[k]).summary == replies[k]
                    && docs[k].vector == vectors[k]
        }),
{
    let symbols = item.children.map_values(|c: SourceChunkView| symbol_of_chunk(c));
    law_every_reply_finds_its_place(file, symbols, threshold, replies);
    let t = texts_of(item, EmbedMode::Summary, Some(result))->0;
    assert(embed_list(item, t) =~= replies);
}

/// The texts to embed are the file's and then the children's, each that of its own
/// child, as far as there are both.
pub proof fn law_texts_to_embed(item: SourceItemView, texts: ItemTextsView)
    ensures
        embed_list(item, texts).len() <= 1 + item.children.len(),
        embed_list(item, texts).len() <= 1 + texts.children.len(),
        embed_list(item, texts).len() == 1 + item.children.len() || embed_list(item, texts).len()
            == 1 + texts.children.len(),
        embed_list(item, texts)[0] == texts.file.embed,
        forall|k: int|
            1 <= k < embed_list(item, texts).len() ==> #[trigger] embed_list(item, texts)[k]
                == texts.children[k - 1].embed,
{
}

/// A document says of the item, or of its own child, what that is: the file's
/// document has the file's text and hash and no lines, the `k`-th child's has that
/// child's name, kind, lines and calls; each has the item's language.
pub proof fn law_documents_keep_their_parts(
    item: SourceItemView,
    texts: ItemTextsView,
    vectors: Seq<Seq<u32>>,
    k: int,
)
    requires
        vectors.len() == embed_list(item, texts).len(),
        0 <= k < vectors.len(),
    ensures
        ({
            let d = documents_of(item, texts, vectors)[k];
            let c = item.children[k - 1];
            &&& d.language == Some(
                match item.language {
                    Some(l) => l,
                    None => "unknown"@,
                },
            )
            &&& d.called_by is None
            &&& d.last_used_at is None
            &&& k == 0 ==> {
                &&& d.summary == texts.file.summary
                &&& d.content_hash == Some(item.content_hash)
                &&& d.symbol_name is None
                &&& d.symbol_kind is None
                &&& d.start_line is None
                &&& d.end_line is None
                &&& d.calls is None
            }
            &&& k > 0 ==> {
                &&& d.summary == texts.children[k - 1].summary
                &&& d.symbol_name == Some(c.name)
                &&& d.symbol_kind == Some(c.kind)
                &&& d.start_line == c.start_line
                &&& d.end_line == c.end_line
                &&& d.calls == Some(c.references)
            }
        }),
{
}

/// A child is put to the summarizer with all its parts; a line that it does not
/// have counts as zero.
pub proof fn law_symbols_keep_their_parts(c: SourceChunkView)
    ensures
        ({
            let s = symbol_of_chunk(c);
            &&& s.name == c.name
            &&& s.kind == c.kind
            &&& s.body == c.content
            &&& s.signature == c.signature
            &&& s.doc_comment == c.doc_comment
            &&& s.references == c.references
            &&& c.start_line matches Some(n) ==> s.start_line == n
            &&& c.end_line matches Some(n) ==> s.end_line == n
        }),
{
}

/// An id depends on everything that tells documents apart: it is the beginning of
/// the hash of a text that starts with the path and ends with the content, and
/// holds the kind and the symbol's name between them.
pub proof fn law_ids_cover_path_kind_name_and_content(
    file_path: Seq<char>,
    kind: ChunkKind,
    symbol_name: Option<Seq<char>>,
    content: Seq<char>,
)
    ensures
        exists|text: Seq<char>|
            {
                &&& id_of(file_path, kind, symbol_name, content) == #[trigger] short_hash_of(
                    text,
                    16,
                )
                &&& has_prefix(text, file_path + kind.name())
                &&& has_suffix(text, content)
                &&& symbol_name matches Some(name) ==> text.len() == file_path.len()
                    + kind.name().len() + name.len() + content.len() && has_suffix(
                    text,
                    name + content,
                )
                &&& symbol_name is None ==> text.len() == file_path.len() + kind.name().len()
                    + content.len()
            },
{
    let name = match symbol_name {
        Some(n) => n,
        None => ""@,
    };
    reveal_strlit("");
    let text = file_path + kind.name() + name + content;
    assert(id_of(file_path, kind, symbol_name, content) == short_hash_of(text, 16));
    assert(text.take((file_path + kind.name()).len() as int) =~= file_path + kind.name());
    assert(text.skip(text.len() - content.len()) =~= content);
    assert(text.skip(text.len() - (name + content).len()) =~= name + content);
}

/// An item is put to the summarizer whole: under its own path, with all its content
/// and its language.
pub proof fn law_items_are_put_to_the_summarizer_whole(item: SourceItemView)
    ensures
        input_of(item).file_path == item.source_path,
        input_of(item).content == item.content,
        input_of(item).imports.len() == 0,
        item.language matches Some(l) ==> input_of(item).language == l,
        item.language is None ==> input_of(item).language == "unknown"@,
        has_suffix(file_message(input_of(item)), item.content),
        occurs(file_message(input_of(item)), item.source_path),
{
    law_file_message_holds_the_file(input_of(item));
}

/// What becomes of an item has its documents, counts its children, and keeps its
/// hash.
pub proof fn law_results_keep_count_and_hash(
    item: SourceItemView,
    texts: ItemTextsView,
    vectors: Seq<Seq<u32>>,
)
    requires
        item.children.len() <= usize::MAX,
        vectors.len() == embed_list(item, texts).len(),
    ensures
        ({
            let r = result_of(item, texts, vectors);
            &&& r.symbol_count == item.children.len()
            &&& r.content_hash == item.content_hash
            &&& r.documents.len() == vectors.len()
            &&& r.documents[0].content_hash == Some(item.content_hash)
        }),
{
}

/// In docstring mode an item with a module doc or with a signed child is code: it is
/// embedded and shown by its table of contents, and each child by its docs and its
/// signature. Any other is prose: it is embedded by its own text and shown by a short
/// form of it, and so is each child.
pub proof fn law_code_and_prose(item: SourceItemView)
    ensures
        ({
            let t = docstring_texts_of(item);
            let code = (item.module_doc is Some && trimmed(item.module_doc->0).len() > 0) || exists|
                k: int,
            |
                0 <= k < item.children.len() && (#[trigger] item.children[k]).signature is Some
                    && trimmed(item.children[k].signature->0).len() > 0;
            &&& t.children.len() == item.children.len()
            &&& code ==> {
                &&& t.file.embed == toc_text(item.source_path, item.module_doc, item.children)
                &&& t.file.summary == t.file.embed
                &&& forall|k: int|
                    0 <= k < item.children.len() ==> (#[trigger] t.children[k]).embed == symbol_text(
                        item.children[k].doc_comment,
                        item.children[k].signature,
                        item.children[k].name,
                    ) && t.children[k].summary == t.children[k].embed
            }
            &&& !code ==> {
                &&& t.file.embed == doc_text(item.content)
                &&& t.file.summary == doc_summary(item.content)
                &&& forall|k: int|
                    0 <= k < item.children.len() ==> (#[trigger] t.children[k]).embed
                        == section_text(item.children[k].name, item.children[k].content)
                        && t.children[k].summary == section_summary(
                        item.children[k].name,
                        item.children[k].content,
                    )
            }
        }),
{
    let code = (item.module_doc is Some && trimmed(item.module_doc->0).len() > 0) || exists|k: int|
        0 <= k < item.children.len() && (#[trigger] item.children[k]).signature is Some && trimmed(
            item.children[k].signature->0,
        ).len() > 0;
    assert(code == is_code(item.module_doc, item.children));
}

} // verus!
