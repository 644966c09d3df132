//! Texts to embed and to show for prose: pages, issues, and text files.
use vstd::prelude::*;

use crate::bytes::byte_pos;
use crate::tap::{SourceChunk, SourceChunkView};
use crate::text::{
    has_prefix, has_suffix, is_blank, is_white, is_whitespace, law_trimming_takes_only_whitespace,
    lemma_trimmed_end_white, lemma_trimmed_is_part, lemma_trimmed_len, lines, lines_of, same,
    starts_with, to_chars, trim, trim_end, trim_start_char, trimmed, trimmed_end,
    without_leading,
};

verus! {

/// Character budget of what is embedded for a document or a section.
pub const MAX_PROSE_CHARS: usize = 24_000;

/// Character budget of what is shown for a document or a section.
pub const MAX_SUMMARY_CHARS: usize = 320;

/// Whether an optional text holds more than whitespace.
pub open spec fn holds_text(t: Option<Seq<char>>) -> bool {
    t matches Some(s) && trimmed(s).len() > 0
}

/// Whether an item is code: a module doc, or a child with a signature.
pub open spec fn is_code(module_doc: Option<Seq<char>>, children: Seq<SourceChunkView>) -> bool {
    holds_text(module_doc) || exists|i: int|
        0 <= i < children.len() && holds_text((#[trigger] children[i]).signature)
}

/// Whether an item carries code structure. Items without it are prose and embed
/// their raw text.
pub fn has_code_structure(module_doc: Option<&str>, children: &[SourceChunk]) -> (r: bool)
    ensures
        r == is_code(module_doc.deep_view(), children.deep_view()),
{
    if let Some(d) = module_doc {
        if !is_blank(d) {
            return true;
        }
    }
    let ghost cv = children.deep_view();
    let mut i: usize = 0;
    while i < children.len()
        invariant
            i <= children@.len(),
            cv == children.deep_view(),
            forall|j: int| 0 <= j < i ==> !holds_text((#[trigger] cv[j]).signature),
        decreases children@.len() - i,
    {
        assert(cv[i as int] == children@[i as int].deep_view());
        if let Some(s) = &children[i].signature {
            if !is_blank(s.as_str()) {
                assert(holds_text(cv[i as int].signature));
                return true;
            }
        }
        i += 1;
    }
    false
}

/// At most the first `max` characters.
pub open spec fn capped(s: Seq<char>, max: int) -> Seq<char> {
    if s.len() <= max {
        s
    } else {
        s.take(max)
    }
}

fn truncate_chars(s: &str, max: usize) -> (r: String)
    ensures
        r@ == capped(s@, max as int),
{
    if s.unicode_len() <= max {
        s.to_string()
    } else {
        assert(s@.subrange(0, max as int) =~= s@.take(max as int));
        s.substring_char(0, max).to_string()
    }
}

/// The last position of whitespace.
pub open spec fn last_white(s: Seq<char>) -> Option<int>
    decreases s.len(),
{
    if s.len() == 0 {
        None
    } else if is_white(s.last()) {
        Some(s.len() - 1)
    } else {
        last_white(s.drop_last())
    }
}

/// A text cut for display: short ones trimmed, long ones cut at a word boundary
/// in the second half of the budget, where there is one, with an ellipsis. The
/// length stays within `max`.
pub open spec fn cut(s: Seq<char>, max: int) -> Seq<char> {
    let t = trimmed(s);
    if t.len() <= max {
        t
    } else if max <= 0 {
        Seq::<char>::empty()
    } else {
        let budget = max - 1;
        let head = t.take(budget);
        let kept = match last_white(head) {
            Some(i) => if byte_pos(head, i) >= budget / 2 {
                head.take(i)
            } else {
                head
            },
            None => head,
        };
        trimmed_end(kept).push('…')
    }
}

fn rfind_white(s: &str) -> (r: Option<usize>)
    ensures
        match r {
            Some(i) => last_white(s@) == Some(i as int) && i < s@.len(),
            None => last_white(s@) is None,
        },
{
    let v = to_chars(s);
    let mut i: usize = v.len();
    assert(s@.take(i as int) =~= s@);
    while i > 0
        invariant
            i <= v@.len(),
            v@ == s@,
            last_white(s@) == last_white(s@.take(i as int)),
        decreases i,
    {
        assert(s@.take(i as int).drop_last() =~= s@.take(i - 1));
        i -= 1;
        if is_whitespace(v[i]) {
            return Some(i);
        }
    }
    None
}

/// Cuts a text for display.
pub fn snippet(s: &str, max: usize) -> (r: String)
    ensures
        r@ == cut(s@, max as int),
{
    let t = trim(s);
    if t.as_str().unicode_len() <= max {
        return t;
    }
    if max == 0 {
        return String::new();
    }
    let budget: usize = max - 1;
    let mut head = truncate_chars(t.as_str(), budget);
    if let Some(i) = rfind_white(head.as_str()) {
        let before = head.as_str().substring_char(0, i).to_string();
        assert(before@ =~= head@.take(i as int));
        if before.as_str().as_bytes().len() >= budget / 2 {
            head = before;
        }
    }
    let mut r = trim_end(head.as_str());
    r.push('…');
    r
}

/// What is embedded for a document.
pub open spec fn doc_text(content: Seq<char>) -> Seq<char> {
    capped(trimmed(content), MAX_PROSE_CHARS as int)
}

/// Text to embed for a document: its content, capped.
pub fn prose_doc_text(content: &str) -> (r: String)
    ensures
        r@ == doc_text(content@),
{
    truncate_chars(trim(content).as_str(), MAX_PROSE_CHARS)
}

/// The first line that holds text, without heading marks.
pub open spec fn title_of(lines: Seq<Seq<char>>) -> Seq<char>
    decreases lines.len(),
{
    if lines.len() == 0 {
        Seq::<char>::empty()
    } else if trimmed(lines[0]).len() > 0 {
        trimmed(without_leading(trimmed(lines[0]), '#'))
    } else {
        title_of(lines.drop_first())
    }
}

/// Whether a line is body text: no heading and no link to the page.
pub open spec fn is_body(line: Seq<char>) -> bool {
    line.len() > 0 && line[0] != '#' && !has_prefix(line, "URL:"@)
}

/// The first line of body text.
pub open spec fn lead_of(lines: Seq<Seq<char>>) -> Seq<char>
    decreases lines.len(),
{
    if lines.len() == 0 {
        Seq::<char>::empty()
    } else if is_body(trimmed(lines[0])) {
        trimmed(lines[0])
    } else {
        lead_of(lines.drop_first())
    }
}

/// What is shown for a document: its title and the first line of its body.
pub open spec fn doc_summary(content: Seq<char>) -> Seq<char> {
    let title = title_of(lines_of(content));
    let lead = lead_of(lines_of(content));
    cut(
        if lead.len() == 0 || lead == title {
            title
        } else {
            title + "\n"@ + lead
        },
        MAX_SUMMARY_CHARS as int,
    )
}

fn find_title(list: &Vec<String>) -> (r: String)
    ensures
        r@ == title_of(list.deep_view()),
{
    let ghost lv = list.deep_view();
    let mut i: usize = 0;
    assert(lv.skip(0) =~= lv);
    while i < list.len()
        invariant
            i <= list@.len(),
            lv == list.deep_view(),
            title_of(lv) == title_of(lv.skip(i as int)),
        decreases list@.len() - i,
    {
        assert(lv.skip(i as int)[0] == list@[i as int]@);
        assert(lv.skip(i as int).drop_first() =~= lv.skip(i + 1));
        let t = trim(list[i].as_str());
        if t.as_str().unicode_len() > 0 {
            return trim(trim_start_char(t.as_str(), '#').as_str());
        }
        i += 1;
    }
    String::new()
}

fn find_lead(list: &Vec<String>) -> (r: String)
    ensures
        r@ == lead_of(list.deep_view()),
{
    let ghost lv = list.deep_view();
    let mut i: usize = 0;
    assert(lv.skip(0) =~= lv);
    while i < list.len()
        invariant
            i <= list@.len(),
            lv == list.deep_view(),
            lead_of(lv) == lead_of(lv.skip(i as int)),
        decreases list@.len() - i,
    {
        assert(lv.skip(i as int)[0] == list@[i as int]@);
        assert(lv.skip(i as int).drop_first() =~= lv.skip(i + 1));
        let t = trim(list[i].as_str());
        if t.as_str().unicode_len() > 0 && t.as_str().get_char(0) != '#' && !starts_with(
            t.as_str(),
            "URL:",
        ) {
            return t;
        }
        i += 1;
    }
    String::new()
}

/// Text to show for a document.
pub fn prose_doc_summary(content: &str) -> (r: String)
    ensures
        r@ == doc_summary(content@),
{
    let ls = lines(content);
    let title = find_title(&ls);
    let lead = find_lead(&ls);
    let combined = if lead.as_str().unicode_len() == 0 || same(lead.as_str(), title.as_str()) {
        title
    } else {
        let mut t = title;
        t.append("\n");
        t.append(lead.as_str());
        t
    };
    snippet(combined.as_str(), MAX_SUMMARY_CHARS)
}

/// What is embedded for a section: its heading and its content.
pub open spec fn section_text(name: Seq<char>, content: Seq<char>) -> Seq<char> {
    let body = trimmed(content);
    capped(
        if body.len() == 0 {
            trimmed(name)
        } else {
            trimmed(name) + "\n"@ + body
        },
        MAX_PROSE_CHARS as int,
    )
}

/// Text to embed for a section.
pub fn prose_section_text(name: &str, content: &str) -> (r: String)
    ensures
        r@ == section_text(name@, content@),
{
    let body = trim(content);
    let mut text = trim(name);
    if body.as_str().unicode_len() > 0 {
        text.append("\n");
        text.append(body.as_str());
    }
    truncate_chars(text.as_str(), MAX_PROSE_CHARS)
}

/// What is shown for a section: its content, or its heading where it is empty.
pub open spec fn section_summary(name: Seq<char>, content: Seq<char>) -> Seq<char> {
    let body = trimmed(content);
    cut(
        if body.len() == 0 {
            trimmed(name)
        } else {
            body
        },
        MAX_SUMMARY_CHARS as int,
    )
}

/// Text to show for a section.
pub fn prose_section_summary(name: &str, content: &str) -> (r: String)
    ensures
        r@ == section_summary(name@, content@),
{
    let body = trim(content);
    let text = if body.as_str().unicode_len() == 0 {
        trim(name)
    } else {
        body
    };
    snippet(text.as_str(), MAX_SUMMARY_CHARS)
}

// ---------------------------------------------------------------------------
// Laws
// ---------------------------------------------------------------------------

/// A cut text, ellipsis included, never exceeds its budget.
pub proof fn law_cut_is_bounded(s: Seq<char>, max: int)
    requires
        max >= 0,
    ensures
        cut(s, max).len() <= max,
{
    let t = trimmed(s);
    if t.len() > max > 0 {
        let head = t.take(max - 1);
        lemma_last_white(head);
        lemma_trimmed_len(head);
        if let Some(i) = last_white(head) {
            lemma_trimmed_len(head.take(i));
        }
    }
}

proof fn lemma_last_white(s: Seq<char>)
    ensures
        last_white(s) matches Some(i) ==> 0 <= i < s.len(),
    decreases s.len(),
{
    if s.len() > 0 {
        lemma_last_white(s.drop_last());
    }
}

/// What is embedded and what is shown stay within their budgets, however long
/// the document or section is.
pub proof fn law_prose_is_bounded(name: Seq<char>, content: Seq<char>)
    ensures
        doc_text(content).len() <= MAX_PROSE_CHARS,
        section_text(name, content).len() <= MAX_PROSE_CHARS,
        doc_summary(content).len() <= MAX_SUMMARY_CHARS,
        section_summary(name, content).len() <= MAX_SUMMARY_CHARS,
{
    let title = title_of(lines_of(content));
    let lead = lead_of(lines_of(content));
    law_cut_is_bounded(
        if lead.len() == 0 || lead == title {
            title
        } else {
            title + "\n"@ + lead
        },
        MAX_SUMMARY_CHARS as int,
    );
    law_cut_is_bounded(
        if trimmed(content).len() == 0 {
            trimmed(name)
        } else {
            trimmed(content)
        },
        MAX_SUMMARY_CHARS as int,
    );
}

/// A short text is shown whole, without the whitespace around it. Of a long one the
/// beginning is shown, with an ellipsis behind it; where it stops short of the
/// budget, it stops before whitespace, so that no word is broken.
pub proof fn law_cut_shows_the_beginning(s: Seq<char>, max: int)
    requires
        max > 0,
    ensures
        trimmed(s).len() <= max ==> cut(s, max) == trimmed(s),
        trimmed(s).len() > max ==> {
            let t = trimmed(s);
            let r = cut(s, max);
            &&& r.len() > 0
            &&& r.last() == '…'
            &&& has_prefix(t, r.drop_last())
            &&& r.len() < max ==> is_white(t[r.len() - 1])
        },
{
    let t = trimmed(s);
    if t.len() > max {
        let budget = max - 1;
        let head = t.take(budget);
        let kept = match last_white(head) {
            Some(i) => if byte_pos(head, i) >= budget / 2 {
                head.take(i)
            } else {
                head
            },
            None => head,
        };
        lemma_last_white(head);
        lemma_white_there(head);
        lemma_trimmed_is_part(kept);
        lemma_trimmed_len(kept);
        lemma_trimmed_end_white(kept);
        let e = trimmed_end(kept);
        let r = cut(s, max);
        assert(r.drop_last() =~= e);
        assert(t.take(e.len() as int) =~= e);
        if r.len() < max {
            if e.len() < kept.len() {
                assert(is_white(kept[e.len() as int]));
            } else {
                assert(e =~= kept);
                assert(head[kept.len() as int] == t[kept.len() as int]);
            }
        }
    }
}

proof fn lemma_white_there(s: Seq<char>)
    ensures
        last_white(s) matches Some(i) ==> 0 <= i < s.len() && is_white(s[i]),
    decreases s.len(),
{
    if s.len() > 0 {
        lemma_white_there(s.drop_last());
    }
}

/// What is embedded for a document is the beginning of its content, as much of it
/// as the budget allows; a section's begins with its heading.
pub proof fn law_prose_is_embedded_from_the_beginning(name: Seq<char>, content: Seq<char>)
    ensures
        has_prefix(trimmed(content), doc_text(content)),
        trimmed(content).len() <= MAX_PROSE_CHARS ==> doc_text(content) == trimmed(content),
        trimmed(content).len() > MAX_PROSE_CHARS ==> doc_text(content).len() == MAX_PROSE_CHARS,
        trimmed(name).len() <= MAX_PROSE_CHARS ==> has_prefix(
            section_text(name, content),
            trimmed(name),
        ),
        trimmed(name).len() + 1 + trimmed(content).len() <= MAX_PROSE_CHARS ==> has_suffix(
            section_text(name, content),
            trimmed(content),
        ),
        trimmed(content).len() == 0 && trimmed(name).len() <= MAX_PROSE_CHARS ==> section_text(
            name,
            content,
        ) == trimmed(name),
        trimmed(content).len() > 0 && trimmed(name).len() + 1 + trimmed(content).len()
            <= MAX_PROSE_CHARS ==> section_text(name, content).len() == trimmed(name).len() + 1
            + trimmed(content).len(),
{
    reveal_strlit("\n");
    let c = trimmed(content);
    let t = section_text(name, content);
    assert(c.take(c.len() as int) =~= c);
    assert(c.skip(c.len() as int) =~= Seq::<char>::empty());
    if trimmed(name).len() <= MAX_PROSE_CHARS {
        assert(t.take(trimmed(name).len() as int) =~= trimmed(name));
    }
    if trimmed(name).len() + 1 + c.len() <= MAX_PROSE_CHARS {
        assert(t.skip(t.len() - c.len()) =~= c);
    }
}

/// What is shown for a section that fits is its content, or its heading where it
/// has none.
pub proof fn law_sections_show_their_content(name: Seq<char>, content: Seq<char>)
    ensures
        0 < trimmed(content).len() <= MAX_SUMMARY_CHARS ==> section_summary(name, content)
            == trimmed(content),
        trimmed(content).len() > MAX_SUMMARY_CHARS ==> has_prefix(
            trimmed(content),
            section_summary(name, content).drop_last(),
        ),
        trimmed(content).len() == 0 && trimmed(name).len() <= MAX_SUMMARY_CHARS
            ==> section_summary(name, content) == trimmed(name),
{
    lemma_trimmed_twice(content);
    lemma_trimmed_twice(name);
    law_cut_shows_the_beginning(trimmed(content), MAX_SUMMARY_CHARS as int);
    law_cut_shows_the_beginning(trimmed(name), MAX_SUMMARY_CHARS as int);
}

proof fn lemma_trimmed_twice(s: Seq<char>)
    ensures
        trimmed(trimmed(s)) == trimmed(s),
{
    law_trimming_takes_only_whitespace(s);
}

/// The title of a document is its first line that holds text, without heading
/// marks; the lead is its first line of text that is neither a heading nor a link,
/// and no line before it is such a line.
pub proof fn law_title_and_lead(lines: Seq<Seq<char>>, k: int)
    requires
        0 <= k < lines.len(),
    ensures
        trimmed(lines[k]).len() > 0 && (forall|j: int|
            0 <= j < k ==> trimmed(#[trigger] lines[j]).len() == 0) ==> title_of(lines) == trimmed(
            without_leading(trimmed(lines[k]), '#'),
        ),
        trimmed(lines[k]).len() > 0 && trimmed(lines[k])[0] != '#' && !has_prefix(
            trimmed(lines[k]),
            "URL:"@,
        ) && (forall|j: int|
            0 <= j < k ==> (trimmed(#[trigger] lines[j]).len() == 0 || trimmed(lines[j])[0] == '#'
                || has_prefix(trimmed(lines[j]), "URL:"@))) ==> lead_of(lines) == trimmed(lines[k]),
    decreases k,
{
    if k > 0 {
        let rest = lines.drop_first();
        assert(forall|j: int| 0 <= j < rest.len() ==> #[trigger] rest[j] == lines[j + 1]);
        law_title_and_lead(rest, k - 1);
        assert(lines[0] == lines[0]);
    }
}

/// What is shown for a document, where it fits, begins with its title, and ends
/// with its lead where it has one.
pub proof fn law_documents_show_title_and_lead(content: Seq<char>)
    ensures
        ({
            let title = title_of(lines_of(content));
            let lead = lead_of(lines_of(content));
            title.len() > 0 && title.len() + 1 + lead.len() <= MAX_SUMMARY_CHARS ==> has_prefix(
                doc_summary(content),
                title,
            ) && has_suffix(doc_summary(content), lead)
        }),
{
    reveal_strlit("\n");
    let title = title_of(lines_of(content));
    let lead = lead_of(lines_of(content));
    if title.len() > 0 && title.len() + 1 + lead.len() <= MAX_SUMMARY_CHARS {
        lemma_title_is_trimmed(lines_of(content));
        let all = if lead.len() == 0 || lead == title {
            title
        } else {
            title + "\n"@ + lead
        };
        assert(all[0] == title[0]);
        assert(all.last() == if lead.len() == 0 {
            title.last()
        } else {
            lead.last()
        });
        lemma_already_trimmed(all);
        assert(all.take(title.len() as int) =~= title);
        assert(all.skip(all.len() - lead.len()) =~= lead);
    }
}

proof fn lemma_title_is_trimmed(lines: Seq<Seq<char>>)
    ensures
        title_of(lines).len() > 0 ==> !is_white(title_of(lines)[0]) && !is_white(
            title_of(lines).last(),
        ),
        lead_of(lines).len() > 0 ==> !is_white(lead_of(lines)[0]) && !is_white(
            lead_of(lines).last(),
        ),
    decreases lines.len(),
{
    if lines.len() > 0 {
        lemma_title_is_trimmed(lines.drop_first());
        law_trimming_takes_only_whitespace(lines[0]);
        law_trimming_takes_only_whitespace(without_leading(trimmed(lines[0]), '#'));
    }
}

proof fn lemma_already_trimmed(s: Seq<char>)
    requires
        s.len() > 0,
        !is_white(s[0]),
        !is_white(s.last()),
    ensures
        trimmed(s) == s,
{
}

} // verus!
