//! Texts to embed for code, made from its documentation without a summarizer.
//! A symbol without docs and signature still yields its name.
use vstd::prelude::*;
use vstd::utf8::encode_utf8;

use crate::bytes::{lemma_ascii_size, lemma_encode_add};
use crate::tap::{SourceChunk, SourceChunkView};
use crate::text::{
    has_prefix, has_suffix, join, joined, lemma_joined_holds, occurs, trim, trimmed,
};

verus! {

/// Byte budget of a file's table of contents, so that a file of hundreds of
/// symbols does not exceed an embedder's limit.
pub const MAX_TOC_CHARS: usize = 24_000;

/// An optional text, trimmed, where something is left of it.
pub open spec fn present(t: Option<Seq<char>>) -> Option<Seq<char>> {
    match t {
        Some(s) => if trimmed(s).len() == 0 {
            None
        } else {
            Some(trimmed(s))
        },
        None => None,
    }
}

/// What is embedded for a symbol: its docs and its signature, or its name
/// where it has no signature.
pub open spec fn symbol_text(
    doc_comment: Option<Seq<char>>,
    signature: Option<Seq<char>>,
    name: Seq<char>,
) -> Seq<char> {
    let anchor = match present(signature) {
        Some(s) => s,
        None => name,
    };
    match present(doc_comment) {
        Some(d) => d + "\n"@ + anchor,
        None => anchor,
    }
}

fn keep_present(t: Option<&str>) -> (r: Option<String>)
    ensures
        r.deep_view() == present(t.deep_view()),
{
    match t {
        Some(s) => {
            let u = trim(s);
            if u.as_str().unicode_len() == 0 {
                None
            } else {
                Some(u)
            }
        },
        None => None,
    }
}

/// Text to embed for a symbol. Never includes the body.
pub fn symbol_embed_text(
    doc_comment: Option<&str>,
    signature: Option<&str>,
    name: &str,
) -> (r: String)
    ensures
        r@ == symbol_text(doc_comment.deep_view(), signature.deep_view(), name@),
{
    let anchor = match keep_present(signature) {
        Some(s) => s,
        None => name.to_string(),
    };
    match keep_present(doc_comment) {
        Some(d) => {
            let mut r = d;
            r.append("\n");
            r.append(anchor.as_str());
            r
        },
        None => anchor,
    }
}

/// The line of a child in a table of contents.
pub open spec fn toc_line(c: SourceChunkView) -> Seq<char> {
    match present(c.signature) {
        Some(s) => s,
        None => c.name,
    }
}

/// The lines of a list of children, as long as they fit the budget behind
/// `used` bytes. Empty lines are left out.
pub open spec fn toc_lines(children: Seq<SourceChunkView>, used: int) -> Seq<Seq<char>>
    decreases children.len(),
{
    if children.len() == 0 {
        Seq::<Seq<char>>::empty()
    } else {
        let line = toc_line(children[0]);
        let size = encode_utf8(line).len() + 1;
        if line.len() == 0 {
            toc_lines(children.drop_first(), used)
        } else if used + size > MAX_TOC_CHARS {
            Seq::<Seq<char>>::empty()
        } else {
            seq![line] + toc_lines(children.drop_first(), used + size)
        }
    }
}

/// The head of a table of contents: the path and the module's docs.
pub open spec fn toc_head(file_path: Seq<char>, module_doc: Option<Seq<char>>) -> Seq<Seq<char>> {
    match present(module_doc) {
        Some(d) => seq![file_path, d],
        None => seq![file_path],
    }
}

/// The bytes of the head, with a line feed before the docs.
pub open spec fn toc_head_size(file_path: Seq<char>, module_doc: Option<Seq<char>>) -> int {
    match present(module_doc) {
        Some(d) => (encode_utf8(file_path).len() + encode_utf8(d).len() + 1) as int,
        None => encode_utf8(file_path).len() as int,
    }
}

/// What is embedded for a file: its path, the module's docs, and the signature
/// of each symbol.
pub open spec fn toc_text(
    file_path: Seq<char>,
    module_doc: Option<Seq<char>>,
    children: Seq<SourceChunkView>,
) -> Seq<char> {
    joined(
        toc_head(file_path, module_doc) + toc_lines(children, toc_head_size(file_path, module_doc)),
        "\n"@,
    )
}

/// Text to embed for a file as a table of contents.
pub fn file_toc_text(
    file_path: &str,
    module_doc: Option<&str>,
    children: &[SourceChunk],
) -> (r: String)
    ensures
        r@ == toc_text(file_path@, module_doc.deep_view(), children.deep_view()),
{
    let ghost cv = children.deep_view();
    let ghost head = toc_head(file_path@, module_doc.deep_view());
    let mut parts: Vec<String> = Vec::new();
    parts.push(file_path.to_string());
    let mut len: u128 = file_path.as_bytes().len() as u128;
    if let Some(doc) = keep_present(module_doc) {
        len = len + doc.as_str().as_bytes().len() as u128 + 1;
        parts.push(doc);
    }
    assert(parts.deep_view() =~= head);
    let ghost all = toc_lines(cv, len as int);
    let mut i: usize = 0;
    proof {
        assert(cv.skip(0) =~= cv);
        assert(head + all =~= parts.deep_view() + toc_lines(cv.skip(0), len as int));
    }
    while i < children.len()
        invariant
            i <= children@.len(),
            cv == children.deep_view(),
            head == toc_head(file_path@, module_doc.deep_view()),
            all == toc_lines(cv, toc_head_size(file_path@, module_doc.deep_view())),
            len <= 0x1_0000_0000_0000_0000_0000,
            head + all == parts.deep_view() + toc_lines(cv.skip(i as int), len as int),
        decreases children@.len() - i,
    {
        let c = &children[i];
        proof {
            assert(cv.skip(i as int)[0] == c.deep_view());
            assert(cv.skip(i as int).drop_first() =~= cv.skip(i + 1));
        }
        let signature = match &c.signature {
            Some(s) => keep_present(Some(s.as_str())),
            None => None,
        };
        let line = match signature {
            Some(s) => s,
            None => c.name.clone(),
        };
        assert(line@ == toc_line(c.deep_view()));
        if line.as_str().unicode_len() > 0 {
            let size: u128 = line.as_str().as_bytes().len() as u128 + 1;
            if len + size > MAX_TOC_CHARS as u128 {
                assert(parts.deep_view() + Seq::<Seq<char>>::empty() =~= parts.deep_view());
                return join(&parts, "\n");
            }
            let ghost before = parts.deep_view();
            let ghost lv = line@;
            len = len + size;
            parts.push(line);
            proof {
                let rest = toc_lines(cv.skip(i + 1), len as int);
                assert(parts.deep_view() =~= before.push(lv));
                assert(before + (seq![lv] + rest) =~= before.push(lv) + rest);
            }
        }
        i += 1;
    }
    proof {
        assert(cv.skip(i as int) =~= Seq::<SourceChunkView>::empty());
        assert(parts.deep_view() + Seq::<Seq<char>>::empty() =~= parts.deep_view());
    }
    join(&parts, "\n")
}

// ---------------------------------------------------------------------------
// Laws
// ---------------------------------------------------------------------------

/// A named symbol always has something to embed, documented or not.
pub proof fn law_symbol_text_is_never_empty(
    doc_comment: Option<Seq<char>>,
    signature: Option<Seq<char>>,
    name: Seq<char>,
)
    requires
        name.len() > 0,
    ensures
        symbol_text(doc_comment, signature, name).len() > 0,
{
}

/// The bytes of the lines of a table of contents, with a line feed each.
pub open spec fn lines_size(lines: Seq<Seq<char>>) -> int
    decreases lines.len(),
{
    if lines.len() == 0 {
        0
    } else {
        encode_utf8(lines[0]).len() + 1 + lines_size(lines.drop_first())
    }
}

proof fn lemma_toc_lines(children: Seq<SourceChunkView>, used: int)
    ensures
        toc_lines(children, used).len() > 0 ==> used + lines_size(toc_lines(children, used))
            <= MAX_TOC_CHARS,
        lines_size(toc_lines(children, used)) >= 0,
    decreases children.len(),
{
    if children.len() > 0 {
        let line = toc_line(children[0]);
        let size = encode_utf8(line).len() + 1;
        lemma_toc_lines(children.drop_first(), used);
        lemma_toc_lines(children.drop_first(), used + size);
        let rest = toc_lines(children.drop_first(), used + size);
        if line.len() > 0 && used + size <= MAX_TOC_CHARS {
            assert((seq![line] + rest).drop_first() =~= rest);
            if rest.len() == 0 {
                assert(lines_size(rest) == 0);
            }
        }
    }
}

proof fn lemma_joined_size(head: Seq<Seq<char>>, lines: Seq<Seq<char>>)
    requires
        head.len() > 0,
    ensures
        encode_utf8(joined(head + lines, "\n"@)).len() == encode_utf8(joined(head, "\n"@)).len()
            + lines_size(lines),
    decreases lines.len(),
{
    if lines.len() == 0 {
        assert(head + lines =~= head);
    } else {
        let first = head.push(lines[0]);
        let rest = lines.drop_first();
        lemma_joined_size(first, rest);
        assert(first + rest =~= head + lines);
        assert(first.drop_last() =~= head);
        reveal_strlit("\n");
        lemma_encode_add(joined(head, "\n"@), "\n"@);
        lemma_encode_add(joined(head, "\n"@) + "\n"@, lines[0]);
        lemma_ascii_size("\n"@);
    }
}

/// However many symbols a file has, its table of contents stays within the
/// budget where its head does; a head past the budget gets no lines.
pub proof fn law_toc_is_bounded(
    file_path: Seq<char>,
    module_doc: Option<Seq<char>>,
    children: Seq<SourceChunkView>,
)
    ensures
        toc_head_size(file_path, module_doc) <= MAX_TOC_CHARS ==> encode_utf8(
            toc_text(file_path, module_doc, children),
        ).len() <= MAX_TOC_CHARS,
        toc_head_size(file_path, module_doc) > MAX_TOC_CHARS ==> toc_text(
            file_path,
            module_doc,
            children,
        ) == joined(toc_head(file_path, module_doc), "\n"@),
{
    let used = toc_head_size(file_path, module_doc);
    let head = toc_head(file_path, module_doc);
    let lines = toc_lines(children, used);
    lemma_toc_lines(children, used);
    lemma_joined_size(head, lines);
    if let Some(d) = present(module_doc) {
        lemma_joined_size(seq![file_path], seq![d]);
        assert(seq![file_path] + seq![d] =~= head);
        assert(seq![d].drop_first() =~= Seq::<Seq<char>>::empty());
        assert(lines_size(seq![d].drop_first()) == 0);
    }
    if lines.len() == 0 {
        assert(head + lines =~= head);
    }
}

/// What is embedded for a symbol begins with its docs and ends with its signature,
/// or with its name where it has no signature, both without the whitespace around
/// them; between them is one line feed, and there is nothing else.
pub proof fn law_symbol_text_holds_docs_and_signature(
    doc_comment: Option<Seq<char>>,
    signature: Option<Seq<char>>,
    name: Seq<char>,
)
    ensures
        ({
            let t = symbol_text(doc_comment, signature, name);
            let documented = doc_comment is Some && trimmed(doc_comment->0).len() > 0;
            let signed = signature is Some && trimmed(signature->0).len() > 0;
            let anchor = if signed {
                trimmed(signature->0)
            } else {
                name
            };
            &&& has_suffix(t, anchor)
            &&& documented ==> has_prefix(t, trimmed(doc_comment->0).push('\n')) && t.len()
                == trimmed(doc_comment->0).len() + 1 + anchor.len()
            &&& !documented ==> t.len() == anchor.len()
        }),
{
    reveal_strlit("\n");
    let t = symbol_text(doc_comment, signature, name);
    let anchor = match present(signature) {
        Some(s) => s,
        None => name,
    };
    assert(t.skip(t.len() - anchor.len()) =~= anchor);
    if let Some(d) = present(doc_comment) {
        assert(t.take((d.len() + 1) as int) =~= d.push('\n'));
    }
}

/// The bytes that a child's line takes in a table of contents: its signature, or
/// its name where it has none, and a line feed; an empty line takes none.
pub open spec fn line_size(c: SourceChunkView) -> int {
    let line = shown_line(c);
    if line.len() == 0 {
        0
    } else {
        (encode_utf8(line).len() + 1) as int
    }
}

/// What stands for a child in a table of contents.
pub open spec fn shown_line(c: SourceChunkView) -> Seq<char> {
    if c.signature is Some && trimmed(c.signature->0).len() > 0 {
        trimmed(c.signature->0)
    } else {
        c.name
    }
}

/// The bytes that the first `n` children take in a table of contents.
pub open spec fn lines_size_upto(children: Seq<SourceChunkView>, n: int) -> int
    decreases n,
{
    if n <= 0 {
        0
    } else {
        lines_size_upto(children, n - 1) + line_size(children[n - 1])
    }
}

proof fn lemma_lines_size_shift(children: Seq<SourceChunkView>, n: int)
    requires
        1 <= n <= children.len(),
    ensures
        lines_size_upto(children, n) == line_size(children[0]) + lines_size_upto(
            children.drop_first(),
            n - 1,
        ),
        lines_size_upto(children.drop_first(), n - 1) >= 0,
    decreases n,
{
    if n > 1 {
        lemma_lines_size_shift(children, n - 1);
        assert(children.drop_first()[n - 2] == children[n - 1]);
    } else {
        assert(lines_size_upto(children, 0) == 0);
    }
}

proof fn lemma_fitting_lines(children: Seq<SourceChunkView>, used: int, k: int)
    requires
        0 <= k < children.len(),
        shown_line(children[k]).len() > 0,
    ensures
        used + lines_size_upto(children, k + 1) <= MAX_TOC_CHARS ==> toc_lines(
            children,
            used,
        ).contains(shown_line(children[k])),
    decreases children.len(),
{
    let line = toc_line(children[0]);
    let size = encode_utf8(line).len() + 1;
    let rest = children.drop_first();
    lemma_lines_size_shift(children, k + 1);
    assert(shown_line(children[0]) == line);
    if used + lines_size_upto(children, k + 1) <= MAX_TOC_CHARS {
        let all = toc_lines(children, used);
        if k == 0 {
            assert(all[0] == line);
        } else {
            assert(rest[k - 1] == children[k]);
            if line.len() == 0 {
                lemma_fitting_lines(rest, used, k - 1);
            } else {
                lemma_fitting_lines(rest, used + size, k - 1);
                let tail = toc_lines(rest, used + size);
                let m = choose|m: int|
                    0 <= m < tail.len() && tail[m] == shown_line(children[k]);
                assert(all[m + 1] == shown_line(children[k]));
            }
        }
    }
}

proof fn lemma_toc_lines_stem(children: Seq<SourceChunkView>, used: int, m: int)
    requires
        0 <= m < toc_lines(children, used).len(),
    ensures
        exists|k: int|
            0 <= k < children.len() && toc_lines(children, used)[m] == shown_line(
                #[trigger] children[k],
            ),
    decreases children.len(),
{
    let line = toc_line(children[0]);
    let size = encode_utf8(line).len() + 1;
    let rest = children.drop_first();
    if line.len() == 0 {
        lemma_toc_lines_stem(rest, used, m);
        let k = choose|k: int|
            0 <= k < rest.len() && toc_lines(rest, used)[m] == shown_line(#[trigger] rest[k]);
        assert(children[k + 1] == rest[k]);
    } else if m > 0 {
        lemma_toc_lines_stem(rest, used + size, m - 1);
        let k = choose|k: int|
            0 <= k < rest.len() && toc_lines(rest, used + size)[m - 1] == shown_line(
                #[trigger] rest[k],
            );
        assert(children[k + 1] == rest[k]);
    } else {
        assert(children[0] == children[0]);
    }
}

/// A table of contents begins with the file's path, holds the module's docs, and
/// lists every symbol that fits the budget behind those before it by its
/// signature, or by its name where it has none.
pub proof fn law_toc_lists_what_fits(
    file_path: Seq<char>,
    module_doc: Option<Seq<char>>,
    children: Seq<SourceChunkView>,
)
    ensures
        ({
            let t = toc_text(file_path, module_doc, children);
            let documented = module_doc is Some && trimmed(module_doc->0).len() > 0;
            let head = encode_utf8(file_path).len() + if documented {
                encode_utf8(trimmed(module_doc->0)).len() + 1
            } else {
                0
            };
            &&& has_prefix(t, file_path)
            &&& documented ==> occurs(t, trimmed(module_doc->0))
            &&& forall|k: int|
                0 <= k < children.len() && shown_line(#[trigger] children[k]).len() > 0 && head
                    + lines_size_upto(children, k + 1) <= MAX_TOC_CHARS ==> occurs(
                    t,
                    shown_line(children[k]),
                )
        }),
{
    let used = toc_head_size(file_path, module_doc);
    let head = toc_head(file_path, module_doc);
    let lines = toc_lines(children, used);
    let parts = head + lines;
    let t = joined(parts, "\n"@);
    assert(parts[0] == file_path);
    lemma_joined_begins(parts, "\n"@);
    if let Some(d) = present(module_doc) {
        assert(parts[1] == d);
        lemma_joined_holds(parts, "\n"@, 1);
    }
    assert forall|k: int|
        0 <= k < children.len() && shown_line(#[trigger] children[k]).len() > 0 && used
            + lines_size_upto(children, k + 1) <= MAX_TOC_CHARS implies occurs(
        t,
        shown_line(children[k]),
    ) by {
        lemma_fitting_lines(children, used, k);
        let m = choose|m: int| 0 <= m < lines.len() && lines[m] == shown_line(children[k]);
        assert(parts[head.len() + m] == lines[m]);
        lemma_joined_holds(parts, "\n"@, head.len() + m);
    }
}

/// Behind its head a table of contents has nothing but the lines of its symbols.
pub proof fn law_toc_lists_only_symbols(
    file_path: Seq<char>,
    module_doc: Option<Seq<char>>,
    children: Seq<SourceChunkView>,
)
    ensures
        exists|parts: Seq<Seq<char>>|
            {
                let documented = module_doc is Some && trimmed(module_doc->0).len() > 0;
                let n: int = if documented {
                    2
                } else {
                    1
                };
                &&& toc_text(file_path, module_doc, children) == #[trigger] joined(parts, "\n"@)
                &&& parts.len() >= n
                &&& parts[0] == file_path
                &&& documented ==> parts[1] == trimmed(module_doc->0)
                &&& forall|m: int|
                    n <= m < parts.len() ==> exists|k: int|
                        0 <= k < children.len() && #[trigger] parts[m] == shown_line(
                            #[trigger] children[k],
                        )
            },
{
    let used = toc_head_size(file_path, module_doc);
    let head = toc_head(file_path, module_doc);
    let lines = toc_lines(children, used);
    let parts = head + lines;
    let n = head.len() as int;
    assert(toc_text(file_path, module_doc, children) == joined(parts, "\n"@));
    assert forall|m: int| n <= m < parts.len() implies exists|k: int|
        0 <= k < children.len() && #[trigger] parts[m] == shown_line(#[trigger] children[k]) by {
        assert(parts[m] == lines[m - n]);
        lemma_toc_lines_stem(children, used, m - n);
    }
}

proof fn lemma_joined_begins(parts: Seq<Seq<char>>, sep: Seq<char>)
    requires
        parts.len() > 0,
    ensures
        has_prefix(joined(parts, sep), parts[0]),
    decreases parts.len(),
{
    let t = joined(parts, sep);
    if parts.len() == 1 {
        assert(t.take(t.len() as int) =~= t);
    } else {
        lemma_joined_begins(parts.drop_last(), sep);
        let h = joined(parts.drop_last(), sep);
        assert(t.take(parts[0].len() as int) =~= h.take(parts[0].len() as int));
    }
}

} // verus!
