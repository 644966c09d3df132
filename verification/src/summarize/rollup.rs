//! The order in which a file and its symbols are summarized. Normally the file
//! comes first and its summary is context for the symbols; of a file past the
//! token threshold the symbols come first, and the file's summary is made from
//! theirs.
use vstd::prelude::*;

use crate::chunk::{SymbolChunk, SymbolChunkView};
use crate::summarize::prompts::{
    law_rollup_message_holds_the_summaries, pairs_of, rollup_message, rollup_user_message,
};
use crate::summarize::{FileSummaryInput, FileSummaryInputView, SymbolSummaryInput,
    SymbolSummaryInputView};
use crate::text::{
    decimal, has_prefix, lemma_part_at_end, lemma_part_stays, occurs, show_usize,
};

verus! {

/// Files above this many tokens are rolled up.
pub const DEFAULT_TOKEN_THRESHOLD: usize = 50_000;

/// The summary of a symbol.
#[derive(Debug)]
pub struct SymbolSummaryResult {
    pub name: String,
    pub summary: String,
}

/// What a [`SymbolSummaryResult`] holds.
#[verifier::ext_equal]
pub struct SymbolSummaryResultView {
    pub name: Seq<char>,
    pub summary: Seq<char>,
}

impl DeepView for SymbolSummaryResult {
    type V = SymbolSummaryResultView;

    open spec fn deep_view(&self) -> SymbolSummaryResultView {
        SymbolSummaryResultView {
            name: self.name@,
            summary: self.summary@,
        }
    }
}

impl Clone for SymbolSummaryResult {
    fn clone(&self) -> (r: Self)
        ensures
            r.deep_view() == self.deep_view(),
    {
        SymbolSummaryResult {
            name: self.name.clone(),
            summary: self.summary.clone(),
        }
    }
}

/// The summaries of a file and its symbols.
#[derive(Debug)]
pub struct FileSummaryResult {
    pub file_summary: String,
    pub symbol_summaries: Vec<SymbolSummaryResult>,
}

/// What a [`FileSummaryResult`] holds.
#[verifier::ext_equal]
pub struct FileSummaryResultView {
    pub file_summary: Seq<char>,
    pub symbol_summaries: Seq<SymbolSummaryResultView>,
}

impl DeepView for FileSummaryResult {
    type V = FileSummaryResultView;

    open spec fn deep_view(&self) -> FileSummaryResultView {
        FileSummaryResultView {
            file_summary: self.file_summary@,
            symbol_summaries: self.symbol_summaries.deep_view(),
        }
    }
}

impl Clone for FileSummaryResult {
    fn clone(&self) -> (r: Self)
        ensures
            r.deep_view() == self.deep_view(),
    {
        FileSummaryResult {
            file_summary: self.file_summary.clone(),
            symbol_summaries: self.symbol_summaries.clone(),
        }
    }
}

/// How far the summarizing of a file has come.
#[derive(Debug)]
pub struct SummaryProgress {
    pub file_summary: Option<String>,
    pub symbol_summaries: Vec<SymbolSummaryResult>,
}

/// What a [`SummaryProgress`] holds.
#[verifier::ext_equal]
pub struct SummaryProgressView {
    pub file_summary: Option<Seq<char>>,
    pub symbol_summaries: Seq<SymbolSummaryResultView>,
}

impl DeepView for SummaryProgress {
    type V = SummaryProgressView;

    open spec fn deep_view(&self) -> SummaryProgressView {
        SummaryProgressView {
            file_summary: self.file_summary.deep_view(),
            symbol_summaries: self.symbol_summaries.deep_view(),
        }
    }
}

/// What to ask the summarizer next.
#[derive(Debug)]
pub enum SummaryAction {
    File(FileSummaryInput),
    Symbol(SymbolSummaryInput),
    Done(FileSummaryResult),
}

/// What a [`SummaryAction`] holds.
#[verifier::ext_equal]
pub enum SummaryActionView {
    File(FileSummaryInputView),
    Symbol(SymbolSummaryInputView),
    Done(FileSummaryResultView),
}

impl DeepView for SummaryAction {
    type V = SummaryActionView;

    open spec fn deep_view(&self) -> SummaryActionView {
        match self {
            SummaryAction::File(i) => SummaryActionView::File(i.deep_view()),
            SummaryAction::Symbol(i) => SummaryActionView::Symbol(i.deep_view()),
            SummaryAction::Done(r) => SummaryActionView::Done(r.deep_view()),
        }
    }
}

/// A rough token count of a text: a quarter of its characters.
pub open spec fn tokens_of(text: Seq<char>) -> int {
    (text.len() / 4) as int
}

/// Estimates the tokens of a text from its characters. Not accurate enough for
/// billing, sufficient for threshold decisions.
pub fn estimate_tokens(text: &str) -> (r: usize)
    ensures
        r == text@.len() / 4,
{
    text.unicode_len() / 4
}

/// What is asked about a symbol, with the given context.
pub open spec fn symbol_input_of(
    sym: SymbolChunkView,
    file_path: Seq<char>,
    context: Seq<char>,
) -> SymbolSummaryInputView {
    SymbolSummaryInputView {
        symbol_name: sym.name,
        symbol_kind: sym.kind,
        body: sym.body,
        signature: sym.signature,
        doc_comment: sym.doc_comment,
        file_path,
        file_summary: context,
    }
}

/// The context of symbols whose file has no summary yet.
pub open spec fn placeholder_of(file: FileSummaryInputView) -> Seq<char> {
    file.language + " file with "@ + decimal(file.imports.len()) + " imports"@
}

/// What is asked about a file by way of its symbols' summaries.
pub open spec fn rollup_input_of(
    file: FileSummaryInputView,
    list: Seq<SymbolSummaryResultView>,
) -> FileSummaryInputView {
    FileSummaryInputView { content: rollup_message(file.file_path, file.language, list), ..file }
}

/// Whether a file is rolled up.
pub open spec fn is_rolled_up(file: FileSummaryInputView, threshold: int) -> bool {
    tokens_of(file.content) > threshold
}

/// What to ask next: in the normal order the file and then each symbol with the
/// file's summary as context; in the roll-up order each symbol with a
/// placeholder as context and then the file.
pub open spec fn action_of(
    file: FileSummaryInputView,
    symbols: Seq<SymbolChunkView>,
    threshold: int,
    p: SummaryProgressView,
) -> SummaryActionView {
    let k = p.symbol_summaries.len() as int;
    if is_rolled_up(file, threshold) {
        if k < symbols.len() {
            SummaryActionView::Symbol(
                symbol_input_of(symbols[k], file.file_path, placeholder_of(file)),
            )
        } else {
            match p.file_summary {
                None => SummaryActionView::File(rollup_input_of(file, p.symbol_summaries)),
                Some(s) => SummaryActionView::Done(
                    FileSummaryResultView {
                        file_summary: s,
                        symbol_summaries: p.symbol_summaries,
                    },
                ),
            }
        }
    } else {
        match p.file_summary {
            None => SummaryActionView::File(file),
            Some(s) => if k < symbols.len() {
                SummaryActionView::Symbol(symbol_input_of(symbols[k], file.file_path, s))
            } else {
                SummaryActionView::Done(
                    FileSummaryResultView {
                        file_summary: s,
                        symbol_summaries: p.symbol_summaries,
                    },
                )
            },
        }
    }
}

/// The progress after the summarizer answered what was asked.
pub open spec fn after_reply(
    asked: SummaryActionView,
    reply: Seq<char>,
    p: SummaryProgressView,
) -> SummaryProgressView {
    match asked {
        SummaryActionView::File(_) => SummaryProgressView { file_summary: Some(reply), ..p },
        SummaryActionView::Symbol(i) => SummaryProgressView {
            symbol_summaries: p.symbol_summaries.push(
                SymbolSummaryResultView { name: i.symbol_name, summary: reply },
            ),
            ..p
        },
        SummaryActionView::Done(_) => p,
    }
}

fn symbol_input(sym: &SymbolChunk, file_path: &str, context: &str) -> (r: SymbolSummaryInput)
    ensures
        r.deep_view() == symbol_input_of(sym.deep_view(), file_path@, context@),
{
    SymbolSummaryInput {
        symbol_name: sym.name.clone(),
        symbol_kind: sym.kind.clone(),
        body: sym.body.clone(),
        signature: sym.signature.clone(),
        doc_comment: sym.doc_comment.clone(),
        file_path: file_path.to_string(),
        file_summary: context.to_string(),
    }
}

fn name_pairs(list: &Vec<SymbolSummaryResult>) -> (r: Vec<(&str, &str)>)
    ensures
        pairs_of(r@) == list.deep_view(),
{
    let mut out: Vec<(&str, &str)> = Vec::new();
    let mut i: usize = 0;
    while i < list.len()
        invariant
            i <= list@.len(),
            out@.len() == i,
            forall|j: int|
                0 <= j < i ==> (#[trigger] out@[j]).0@ == list@[j].name@ && out@[j].1@
                    == list@[j].summary@,
        decreases list@.len() - i,
    {
        out.push((list[i].name.as_str(), list[i].summary.as_str()));
        i += 1;
    }
    assert(pairs_of(out@) =~= list.deep_view());
    out
}

impl SummaryProgress {
    /// Nothing summarized yet.
    pub fn new() -> (r: SummaryProgress)
        ensures
            r.file_summary is None,
            r.symbol_summaries@.len() == 0,
    {
        SummaryProgress { file_summary: None, symbol_summaries: Vec::new() }
    }

    /// Decides what to ask next.
    pub fn next_action(
        &self,
        file: &FileSummaryInput,
        symbols: &Vec<SymbolChunk>,
        token_threshold: usize,
    ) -> (r: SummaryAction)
        ensures
            r.deep_view() == action_of(
                file.deep_view(),
                symbols.deep_view(),
                token_threshold as int,
                self.deep_view(),
            ),
    {
        let k: usize = self.symbol_summaries.len();
        let rolled = estimate_tokens(file.content.as_str()) > token_threshold;
        if rolled && k < symbols.len() {
            let mut context = file.language.clone();
            context.append(" file with ");
            context.append(show_usize(file.imports.len()).as_str());
            context.append(" imports");
            return SummaryAction::Symbol(
                symbol_input(&symbols[k], file.file_path.as_str(), context.as_str()),
            );
        }
        match &self.file_summary {
            None => if rolled {
                let pairs = name_pairs(&self.symbol_summaries);
                SummaryAction::File(
                    FileSummaryInput {
                        file_path: file.file_path.clone(),
                        content: rollup_user_message(
                            file.file_path.as_str(),
                            file.language.as_str(),
                            pairs.as_slice(),
                        ),
                        imports: file.imports.clone(),
                        language: file.language.clone(),
                    },
                )
            } else {
                SummaryAction::File(file.clone())
            },
            Some(s) => if k < symbols.len() {
                SummaryAction::Symbol(
                    symbol_input(&symbols[k], file.file_path.as_str(), s.as_str()),
                )
            } else {
                SummaryAction::Done(
                    FileSummaryResult {
                        file_summary: s.clone(),
                        symbol_summaries: self.symbol_summaries.clone(),
                    },
                )
            },
        }
    }

    /// Takes the summarizer's reply to what was asked.
    pub fn record(&mut self, asked: &SummaryAction, reply: &str)
        ensures
            final(self).deep_view() == after_reply(
                asked.deep_view(),
                reply@,
                old(self).deep_view(),
            ),
    {
        match asked {
            SummaryAction::File(_) => {
                self.file_summary = Some(reply.to_string());
            },
            SummaryAction::Symbol(i) => {
                let ghost before = self.symbol_summaries.deep_view();
                let r = SymbolSummaryResult {
                    name: i.symbol_name.clone(),
                    summary: reply.to_string(),
                };
                let ghost rv = r.deep_view();
                self.symbol_summaries.push(r);
                assert(self.symbol_summaries.deep_view() =~= before.push(rv));
            },
            SummaryAction::Done(_) => {},
        }
    }
}

// ---------------------------------------------------------------------------
// Laws
// ---------------------------------------------------------------------------

/// How many questions have been answered.
pub open spec fn answered(p: SummaryProgressView) -> int {
    p.symbol_summaries.len() + if p.file_summary is Some {
        1int
    } else {
        0int
    }
}

/// Every answer brings the summarizing one question further, and it is done
/// after as many answers as there are symbols, and one for the file.
pub proof fn law_summarizing_ends(
    file: FileSummaryInputView,
    symbols: Seq<SymbolChunkView>,
    threshold: int,
    p: SummaryProgressView,
    reply: Seq<char>,
)
    requires
        p.symbol_summaries.len() <= symbols.len(),
    ensures
        ({
            let asked = action_of(file, symbols, threshold, p);
            let q = after_reply(asked, reply, p);
            &&& asked is Done <==> answered(p) == symbols.len() + 1
            &&& !(asked is Done) ==> answered(q) == answered(p) + 1
            &&& q.symbol_summaries.len() <= symbols.len()
        }),
{
}

/// In the normal order every symbol is asked about with the file's own summary
/// as context; in the roll-up order no symbol waits for it, and the file is
/// asked about with all its symbols' summaries.
pub proof fn law_context_of_questions(
    file: FileSummaryInputView,
    symbols: Seq<SymbolChunkView>,
    threshold: int,
    p: SummaryProgressView,
)
    requires
        p.symbol_summaries.len() <= symbols.len(),
    ensures
        match action_of(file, symbols, threshold, p) {
            SummaryActionView::Symbol(i) => if is_rolled_up(file, threshold) {
                i.file_summary == placeholder_of(file)
            } else {
                p.file_summary == Some(i.file_summary)
            },
            SummaryActionView::File(f) => if is_rolled_up(file, threshold) {
                p.symbol_summaries.len() == symbols.len() && f.content == rollup_message(
                    file.file_path,
                    file.language,
                    p.symbol_summaries,
                )
            } else {
                f == file
            },
            SummaryActionView::Done(_) => true,
        },
{
}

/// The names of the answered symbols are those of the first symbols, in order.
pub proof fn law_summaries_keep_symbol_order(
    file: FileSummaryInputView,
    symbols: Seq<SymbolChunkView>,
    threshold: int,
    p: SummaryProgressView,
    reply: Seq<char>,
)
    requires
        p.symbol_summaries.len() <= symbols.len(),
        forall|i: int|
            0 <= i < p.symbol_summaries.len() ==> (#[trigger] p.symbol_summaries[i]).name
                == symbols[i].name,
    ensures
        ({
            let q = after_reply(action_of(file, symbols, threshold, p), reply, p);
            forall|i: int|
                0 <= i < q.symbol_summaries.len() ==> (#[trigger] q.symbol_summaries[i]).name
                    == symbols[i].name
        }),
{
    let asked = action_of(file, symbols, threshold, p);
    let q = after_reply(asked, reply, p);
    assert forall|i: int| 0 <= i < q.symbol_summaries.len() implies (
    #[trigger] q.symbol_summaries[i]).name == symbols[i].name by {
        if i < p.symbol_summaries.len() {
            assert(q.symbol_summaries[i] == p.symbol_summaries[i]);
        }
    }
}

/// Which question comes next, and what it tells: a file of more than four times
/// `threshold` characters has its symbols asked about first, any other file comes
/// before its symbols; a symbol is asked about in its turn and with all its parts,
/// a file with its path, language and imports, and in the end the result holds
/// what was recorded.
pub proof fn law_questions_tell_the_whole(
    file: FileSummaryInputView,
    symbols: Seq<SymbolChunkView>,
    threshold: int,
    p: SummaryProgressView,
)
    requires
        0 <= threshold,
        p.symbol_summaries.len() <= symbols.len(),
    ensures
        ({
            let k = p.symbol_summaries.len() as int;
            let large = file.content.len() >= 4 * (threshold + 1);
            let asked = action_of(file, symbols, threshold, p);
            &&& asked is File <==> p.file_summary is None && (large ==> k == symbols.len())
            &&& asked is Symbol <==> k < symbols.len() && (large || p.file_summary is Some)
            &&& asked matches SummaryActionView::Symbol(i) ==> {
                &&& i.symbol_name == symbols[k].name
                &&& i.symbol_kind == symbols[k].kind
                &&& i.body == symbols[k].body
                &&& i.signature == symbols[k].signature
                &&& i.doc_comment == symbols[k].doc_comment
                &&& i.file_path == file.file_path
                &&& !large ==> p.file_summary == Some(i.file_summary)
                &&& large ==> has_prefix(i.file_summary, file.language) && occurs(
                    i.file_summary,
                    decimal(file.imports.len()),
                )
            }
            &&& asked matches SummaryActionView::File(f) ==> {
                &&& f.file_path == file.file_path
                &&& f.language == file.language
                &&& f.imports == file.imports
                &&& !large ==> f.content == file.content
                &&& large ==> forall|j: int|
                    0 <= j < k ==> occurs(
                        f.content,
                        "- "@ + (#[trigger] p.symbol_summaries[j]).name + ": "@
                            + p.symbol_summaries[j].summary + "\n"@,
                    )
            }
            &&& asked matches SummaryActionView::Done(r) ==> Some(r.file_summary) == p.file_summary
                && r.symbol_summaries == p.symbol_summaries
        }),
{
    law_rollup_message_holds_the_summaries(file.file_path, file.language, p.symbol_summaries);
    let l = file.language;
    let d = decimal(file.imports.len());
    lemma_part_at_end(l + " file with "@, d);
    lemma_part_stays(l + " file with "@ + d, d, " imports"@);
    assert(placeholder_of(file).take(l.len() as int) =~= l);
}

/// A reply is kept where it belongs: as the file's summary if the file was asked
/// about, behind the others with the symbol's name if a symbol was; and nothing
/// that was kept before is lost.
pub proof fn law_replies_are_kept(
    asked: SummaryActionView,
    reply: Seq<char>,
    p: SummaryProgressView,
)
    ensures
        ({
            let q = after_reply(asked, reply, p);
            let n = p.symbol_summaries.len() as int;
            &&& asked is File ==> q.file_summary == Some(reply) && q.symbol_summaries
                == p.symbol_summaries
            &&& asked matches SummaryActionView::Symbol(i) ==> {
                &&& q.file_summary == p.file_summary
                &&& q.symbol_summaries.len() == n + 1
                &&& q.symbol_summaries.take(n) == p.symbol_summaries
                &&& q.symbol_summaries[n].name == i.symbol_name
                &&& q.symbol_summaries[n].summary == reply
            }
            &&& asked is Done ==> q == p
        }),
{
    if let SummaryActionView::Symbol(i) = asked {
        let q = after_reply(asked, reply, p);
        assert(q.symbol_summaries.take(p.symbol_summaries.len() as int) =~= p.symbol_summaries);
    }
}

/// How far the summarizing of a file is after a list of replies.
pub open spec fn progress_after(
    file: FileSummaryInputView,
    symbols: Seq<SymbolChunkView>,
    threshold: int,
    replies: Seq<Seq<char>>,
) -> SummaryProgressView
    decreases replies.len(),
{
    if replies.len() == 0 {
        SummaryProgressView { file_summary: None, symbol_summaries: Seq::empty() }
    } else {
        let p = progress_after(file, symbols, threshold, replies.drop_last());
        after_reply(action_of(file, symbols, threshold, p), replies.last(), p)
    }
}

proof fn lemma_progress(
    file: FileSummaryInputView,
    symbols: Seq<SymbolChunkView>,
    threshold: int,
    replies: Seq<Seq<char>>,
)
    requires
        0 <= threshold,
        replies.len() <= symbols.len() + 1,
    ensures
        ({
            let p = progress_after(file, symbols, threshold, replies);
            let n = replies.len() as int;
            if file.content.len() >= 4 * (threshold + 1) {
                &&& p.symbol_summaries.len() == if n <= symbols.len() {
                    n
                } else {
                    n - 1
                }
                &&& p.file_summary is Some <==> n == symbols.len() + 1
                &&& n == symbols.len() + 1 ==> p.file_summary == Some(replies.last())
                &&& forall|k: int|
                    0 <= k < p.symbol_summaries.len() ==> (#[trigger] p.symbol_summaries[k]).name
                        == symbols[k].name && p.symbol_summaries[k].summary == replies[k]
            } else {
                &&& p.symbol_summaries.len() == if n == 0 {
                    0
                } else {
                    n - 1
                }
                &&& p.file_summary is Some <==> n > 0
                &&& n > 0 ==> p.file_summary == Some(replies[0])
                &&& forall|k: int|
                    0 <= k < p.symbol_summaries.len() ==> (#[trigger] p.symbol_summaries[k]).name
                        == symbols[k].name && p.symbol_summaries[k].summary == replies[k + 1]
            }
        }),
    decreases replies.len(),
{
    if replies.len() > 0 {
        let before = replies.drop_last();
        lemma_progress(file, symbols, threshold, before);
        let p = progress_after(file, symbols, threshold, before);
        let asked = action_of(file, symbols, threshold, p);
        law_questions_tell_the_whole(file, symbols, threshold, p);
        law_replies_are_kept(asked, replies.last(), p);
        let q = progress_after(file, symbols, threshold, replies);
        assert forall|k: int| 0 <= k < p.symbol_summaries.len() implies q.symbol_summaries[k]
            == p.symbol_summaries[k] by {
            assert(q.symbol_summaries.take(p.symbol_summaries.len() as int)[k]
                == p.symbol_summaries[k]);
        }
    }
}

/// Once every question is answered the result holds every reply in its place. Of
/// an ordinary file the first reply is its summary and the following ones are
/// those of its symbols, in order; of a large one the symbols' come first and its
/// own is the last.
pub proof fn law_every_reply_finds_its_place(
    file: FileSummaryInputView,
    symbols: Seq<SymbolChunkView>,
    threshold: int,
    replies: Seq<Seq<char>>,
)
    requires
        0 <= threshold,
        replies.len() == symbols.len() + 1,
    ensures
        match action_of(
            file,
            symbols,
            threshold,
            progress_after(file, symbols, threshold, replies),
        ) {
            SummaryActionView::Done(r) => {
                let large = file.content.len() >= 4 * (threshold + 1);
                &&& r.file_summary == if large {
                    replies[symbols.len() as int]
                } else {
                    replies[0]
                }
                &&& r.symbol_summaries.len() == symbols.len()
                &&& forall|k: int|
                    0 <= k < symbols.len() ==> (#[trigger] r.symbol_summaries[k]).name
                        == symbols[k].name && r.symbol_summaries[k].summary == if large {
                        replies[k]
                    } else {
                        replies[k + 1]
                    }
            },
            _ => false,
        },
{
    lemma_progress(file, symbols, threshold, replies);
}

/// Each reply is the reply to one question. Of an ordinary file the first question is
/// about the file, with all its content, and the one behind the `k`-th reply about
/// the symbol before it in the list; of a large one the question behind `k` replies
/// is about the `k`-th symbol, and the last about the file.
pub proof fn law_every_question_has_its_reply(
    file: FileSummaryInputView,
    symbols: Seq<SymbolChunkView>,
    threshold: int,
    replies: Seq<Seq<char>>,
)
    requires
        0 <= threshold,
        replies.len() <= symbols.len(),
    ensures
        ({
            let k = replies.len() as int;
            let large = file.content.len() >= 4 * (threshold + 1);
            let about = if large {
                k
            } else {
                k - 1
            };
            match action_of(
                file,
                symbols,
                threshold,
                progress_after(file, symbols, threshold, replies),
            ) {
                SummaryActionView::File(f) => {
                    &&& k == if large {
                        symbols.len() as int
                    } else {
                        0
                    }
                    &&& f.file_path == file.file_path
                    &&& !large ==> f.content == file.content
                },
                SummaryActionView::Symbol(i) => {
                    &&& 0 <= about < symbols.len()
                    &&& i.symbol_name == symbols[about].name
                    &&& i.symbol_kind == symbols[about].kind
                    &&& i.body == symbols[about].body
                    &&& i.file_path == file.file_path
                    &&& !large ==> i.file_summary == replies[0]
                },
                SummaryActionView::Done(_) => false,
            }
        }),
{
    lemma_progress(file, symbols, threshold, replies);
    law_questions_tell_the_whole(
        file,
        symbols,
        threshold,
        progress_after(file, symbols, threshold, replies),
    );
}

} // verus!
