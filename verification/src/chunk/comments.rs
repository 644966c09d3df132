//! Doc comments as prose: comment markers, quotes and tags taken off.
use vstd::prelude::*;

use crate::text::{
    after_last, find_char, from_chars, has_prefix, is_white, is_whitespace, join, joined,
    last_position, law_last_position, law_trimming_takes_only_whitespace, lemma_joined_holds,
    lemma_part_of_part, lemma_part_survives_both, lemma_trimmed_is_part, lemma_trimmed_len, lines,
    lines_of, matches_at, occurs, occurs_at, position, rfind_char, same, starts_with, strip_prefix,
    strip_suffix, tail_after, to_chars, trim, trim_end, trim_start, trimmed, trimmed_end,
    trimmed_start, without_prefix, without_suffix,
};

verus! {

/// The first position of whitespace in `s`.
pub open spec fn white_position(s: Seq<char>) -> Option<int>
    decreases s.len(),
{
    if s.len() == 0 {
        None
    } else if is_white(s[0]) {
        Some(0)
    } else {
        match white_position(s.drop_first()) {
            Some(i) => Some(i + 1),
            None => None,
        }
    }
}

/// What stands before the first whitespace, or all of `s` where there is none.
pub open spec fn first_word(s: Seq<char>) -> Seq<char> {
    match white_position(s) {
        Some(i) => s.take(i),
        None => s,
    }
}

/// What stands after the first whitespace, or nothing where there is none.
pub open spec fn after_word(s: Seq<char>) -> Seq<char> {
    match white_position(s) {
        Some(i) => s.skip(i + 1),
        None => Seq::<char>::empty(),
    }
}

/// Splits at the first whitespace.
fn split_word(s: &str) -> (r: (String, String))
    ensures
        r.0@ == first_word(s@),
        r.1@ == after_word(s@),
{
    let v = to_chars(s);
    let n: usize = v.len();
    let mut i: usize = 0;
    assert(s@.skip(0) =~= s@);
    while i < n && !is_whitespace(v[i])
        invariant
            n == v@.len(),
            v@ == s@,
            i <= n,
            match white_position(s@.skip(i as int)) {
                Some(k) => white_position(s@) == Some(k + i),
                None => white_position(s@) is None,
            },
        decreases n - i,
    {
        assert(s@.skip(i as int).drop_first() =~= s@.skip(i + 1));
        i += 1;
    }
    assert(s@.subrange(0, i as int) =~= s@.take(i as int));
    if i == n {
        assert(s@.take(n as int) =~= s@);
        (from_chars(v.as_slice(), 0, n), String::new())
    } else {
        assert(s@.subrange(i + 1, n as int) =~= s@.skip(i + 1));
        (from_chars(v.as_slice(), 0, i), from_chars(v.as_slice(), i + 1, n))
    }
}

/// `s` without a leading `{type}` annotation and the whitespace after it.
pub open spec fn without_type(s: Seq<char>) -> Seq<char> {
    if s.len() > 0 && s[0] == '{' && position(s, '}') is Some {
        trimmed_start(s.skip(position(s, '}')->0 + 1))
    } else {
        s
    }
}

/// Drops a leading `{type}` annotation.
pub fn strip_jsdoc_type(s: &str) -> (r: String)
    ensures
        r@ == without_type(s@),
{
    let v = to_chars(s);
    let n: usize = v.len();
    if n > 0 && v[0] == '{' {
        if let Some(i) = crate::text::find_char(v.as_slice(), '}') {
            let rest = from_chars(v.as_slice(), i + 1, n);
            assert(rest@ =~= s@.skip(i + 1));
            return trim_start(rest.as_str());
        }
    }
    s.to_string()
}

/// What a tagged line of a JSDoc block says in prose, if it says anything.
pub open spec fn folded_line(line: Seq<char>) -> Option<Seq<char>> {
    let t = trimmed(line);
    if t.len() == 0 {
        None
    } else if let Some(rest) = without_prefix(t, "@param"@) {
        let r = without_type(trimmed(rest));
        let name = trimmed(first_word(r));
        let desc = trimmed(after_word(r));
        if name.len() == 0 {
            None
        } else if desc.len() == 0 {
            Some(name)
        } else {
            Some(name + ": "@ + desc)
        }
    } else if has_prefix(t, "@returns"@) || has_prefix(t, "@return"@) {
        let rest = if has_prefix(t, "@returns"@) {
            t.skip("@returns"@.len() as int)
        } else {
            t.skip("@return"@.len() as int)
        };
        let desc = without_type(trimmed(rest));
        if desc.len() == 0 {
            None
        } else {
            Some("Returns: "@ + desc)
        }
    } else if let Some(rest) = without_prefix(t, "@description"@) {
        let desc = trimmed(rest);
        if desc.len() == 0 {
            None
        } else {
            Some(desc)
        }
    } else if let Some(rest) = without_prefix(t, "@"@) {
        let after = trimmed(after_word(rest));
        if after.len() == 0 {
            None
        } else {
            Some(after)
        }
    } else {
        Some(t)
    }
}

/// The prose of the lines that say something.
pub open spec fn folded_lines(lines: Seq<Seq<char>>) -> Seq<Seq<char>>
    decreases lines.len(),
{
    if lines.len() == 0 {
        Seq::<Seq<char>>::empty()
    } else {
        match folded_line(lines.last()) {
            Some(t) => folded_lines(lines.drop_last()).push(t),
            None => folded_lines(lines.drop_last()),
        }
    }
}

fn or_none(s: String) -> (r: Option<String>)
    ensures
        r.deep_view() == if s@.len() == 0 {
            None::<Seq<char>>
        } else {
            Some(s@)
        },
{
    if s.as_str().unicode_len() == 0 {
        None
    } else {
        Some(s)
    }
}

fn fold_line(line: &str) -> (r: Option<String>)
    ensures
        r.deep_view() == folded_line(line@),
{
    let t = trim(line);
    if t.as_str().unicode_len() == 0 {
        return None;
    }
    if let Some(rest) = strip_prefix(t.as_str(), "@param") {
        let r = strip_jsdoc_type(trim(rest.as_str()).as_str());
        let (word, after) = split_word(r.as_str());
        let name = trim(word.as_str());
        let desc = trim(after.as_str());
        if name.as_str().unicode_len() == 0 {
            return None;
        } else if desc.as_str().unicode_len() == 0 {
            return Some(name);
        } else {
            let mut out = name;
            out.append(": ");
            out.append(desc.as_str());
            return Some(out);
        }
    }
    let result = match strip_prefix(t.as_str(), "@returns") {
        Some(rest) => Some(rest),
        None => strip_prefix(t.as_str(), "@return"),
    };
    if let Some(rest) = result {
        let desc = strip_jsdoc_type(trim(rest.as_str()).as_str());
        if desc.as_str().unicode_len() == 0 {
            return None;
        }
        let mut out = "Returns: ".to_string();
        out.append(desc.as_str());
        return Some(out);
    }
    if let Some(rest) = strip_prefix(t.as_str(), "@description") {
        return or_none(trim(rest.as_str()));
    }
    if let Some(rest) = strip_prefix(t.as_str(), "@") {
        let (_word, after) = split_word(rest.as_str());
        return or_none(trim(after.as_str()));
    }
    Some(t)
}

/// Folds JSDoc tag lines into readable prose.
pub fn fold_jsdoc(list: &Vec<String>) -> (r: String)
    ensures
        r@ == trimmed(joined(folded_lines(list.deep_view()), "\n"@)),
{
    let ghost lv = list.deep_view();
    let mut out: Vec<String> = Vec::new();
    let mut i: usize = 0;
    assert(out.deep_view() =~= folded_lines(lv.take(0)));
    while i < list.len()
        invariant
            i <= list@.len(),
            lv == list.deep_view(),
            out.deep_view() == folded_lines(lv.take(i as int)),
        decreases list@.len() - i,
    {
        let ghost before = out.deep_view();
        assert(lv.take(i + 1).drop_last() =~= lv.take(i as int));
        assert(lv.take(i + 1).last() == list@[i as int]@);
        if let Some(t) = fold_line(list[i].as_str()) {
            let ghost tv = t@;
            out.push(t);
            assert(out.deep_view() =~= before.push(tv));
        }
        i += 1;
    }
    assert(lv.take(i as int) =~= lv);
    trim(join(&out, "\n").as_str())
}

/// `s` without the first of the line-comment markers that it begins with.
pub open spec fn without_marker(s: Seq<char>) -> Seq<char> {
    if has_prefix(s, "///"@) {
        s.skip("///"@.len() as int)
    } else if has_prefix(s, "//!"@) {
        s.skip("//!"@.len() as int)
    } else if has_prefix(s, "//"@) {
        s.skip("//"@.len() as int)
    } else {
        s
    }
}

/// `s` without the star of a block comment's continuation line.
pub open spec fn without_star(s: Seq<char>) -> Seq<char> {
    if has_prefix(s, "* "@) {
        s.skip("* "@.len() as int)
    } else if s == "*"@ {
        ""@
    } else if has_prefix(s, "*"@) {
        s.skip("*"@.len() as int)
    } else {
        s
    }
}

/// One line of a comment without its markers.
pub open spec fn clean_line_of(line: Seq<char>) -> Seq<char> {
    trimmed(without_star(without_marker(trimmed(line))))
}

/// A comment without the delimiters of a block comment.
pub open spec fn comment_inner(raw: Seq<char>) -> Seq<char> {
    if has_prefix(raw, "/**"@) || has_prefix(raw, "/*"@) {
        let s = if has_prefix(raw, "/**"@) {
            raw.skip("/**"@.len() as int)
        } else {
            raw.skip("/*"@.len() as int)
        };
        match without_suffix(s, "*/"@) {
            Some(t) => t,
            None => s,
        }
    } else {
        raw
    }
}

/// Whether a comment is a JSDoc block.
pub open spec fn is_jsdoc(raw: Seq<char>, language: Seq<char>) -> bool {
    (language == "javascript"@ || language == "typescript"@ || language == "tsx"@) && has_prefix(
        raw,
        "/**"@,
    )
}

/// A comment as prose.
pub open spec fn prose_of(raw: Seq<char>, language: Seq<char>) -> Seq<char> {
    let t = trimmed(raw);
    let ls = lines_of(comment_inner(t)).map_values(|l: Seq<char>| clean_line_of(l));
    if is_jsdoc(t, language) {
        trimmed(joined(folded_lines(ls), "\n"@))
    } else {
        trimmed(joined(ls, "\n"@))
    }
}

fn clean_line(line: &str) -> (r: String)
    ensures
        r@ == clean_line_of(line@),
{
    let mut l = trim(line);
    if let Some(rest) = strip_prefix(l.as_str(), "///") {
        l = rest;
    } else if let Some(rest) = strip_prefix(l.as_str(), "//!") {
        l = rest;
    } else if let Some(rest) = strip_prefix(l.as_str(), "//") {
        l = rest;
    }
    assert(l@ == without_marker(trimmed(line@)));
    if let Some(rest) = strip_prefix(l.as_str(), "* ") {
        l = rest;
    } else if same(l.as_str(), "*") {
        l = "".to_string();
    } else if let Some(rest) = strip_prefix(l.as_str(), "*") {
        l = rest;
    }
    trim(l.as_str())
}

/// Strips the markers off a raw doc comment. The tags of a JSDoc block become
/// readable text.
pub fn clean_doc_comment(raw: &str, language: &str) -> (r: String)
    ensures
        r@ == prose_of(raw@, language@),
{
    let t = trim(raw);
    let jsdoc = (same(language, "javascript") || same(language, "typescript") || same(
        language,
        "tsx",
    )) && starts_with(t.as_str(), "/**");
    let opened = match strip_prefix(t.as_str(), "/**") {
        Some(s) => Some(s),
        None => strip_prefix(t.as_str(), "/*"),
    };
    let inner = match opened {
        Some(s) => match strip_suffix(s.as_str(), "*/") {
            Some(u) => u,
            None => s,
        },
        None => t.clone(),
    };
    assert(inner@ == comment_inner(t@));
    let raw_lines = lines(inner.as_str());
    let ghost rl = raw_lines.deep_view();
    let ghost want = rl.map_values(|l: Seq<char>| clean_line_of(l));
    let mut list: Vec<String> = Vec::new();
    let mut i: usize = 0;
    assert(list.deep_view() =~= want.take(0));
    while i < raw_lines.len()
        invariant
            i <= raw_lines@.len(),
            rl == raw_lines.deep_view(),
            want == rl.map_values(|l: Seq<char>| clean_line_of(l)),
            list.deep_view() == want.take(i as int),
        decreases raw_lines@.len() - i,
    {
        let ghost before = list.deep_view();
        let c = clean_line(raw_lines[i].as_str());
        list.push(c);
        proof {
            assert(want[i as int] == c@);
            assert(list.deep_view() =~= before.push(c@));
            assert(want.take(i + 1) =~= want.take(i as int).push(want[i as int]));
        }
        i += 1;
    }
    assert(want.take(i as int) =~= want);
    if jsdoc {
        fold_jsdoc(&list)
    } else {
        trim(join(&list, "\n").as_str())
    }
}

/// Whether a text begins with a doc block: `/**`, with no third star and not
/// closed at once.
pub open spec fn is_doc_block(t: Seq<char>) -> bool {
    has_prefix(t, "/**"@) && !has_prefix(t, "/***"@) && !has_prefix(t, "/**/"@)
}

/// Whether a text begins with a doc line: `///`, with no fourth slash.
pub open spec fn is_doc_line(t: Seq<char>) -> bool {
    has_prefix(t, "///"@) && !has_prefix(t, "////"@)
}

/// Whether a comment is a doc comment for what follows it. In Python none is,
/// and in Go every one is; elsewhere the markers tell.
pub open spec fn is_doc_comment(t: Seq<char>, language: Seq<char>) -> bool {
    if language == "python"@ {
        false
    } else if language == "go"@ {
        true
    } else if language == "rust"@ || language == "c"@ || language == "cpp"@ || language
        == "csharp"@ {
        is_doc_line(t) || is_doc_block(t)
    } else {
        is_doc_block(t)
    }
}

/// Tells doc comments from others, by the beginning of their text.
pub fn documents(text: &str, language: &str) -> (r: bool)
    ensures
        r == is_doc_comment(text@, language@),
{
    if same(language, "python") {
        return false;
    }
    if same(language, "go") {
        return true;
    }
    let block = starts_with(text, "/**") && !starts_with(text, "/***") && !starts_with(
        text,
        "/**/",
    );
    if same(language, "rust") || same(language, "c") || same(language, "cpp") || same(
        language,
        "csharp",
    ) {
        block || (starts_with(text, "///") && !starts_with(text, "////"))
    } else {
        block
    }
}

/// Whether a text ends in a blank line: its trailing whitespace breaks the line
/// more than once.
pub open spec fn ends_in_blank_line(t: Seq<char>) -> bool {
    let tail = t.skip(trimmed_end(t).len() as int);
    position(tail, '\n') != last_position(tail, '\n')
}

/// Tells whether a text ends in a blank line.
pub fn has_blank_end(text: &str) -> (r: bool)
    ensures
        r == ends_in_blank_line(text@),
{
    proof {
        lemma_trimmed_len(text@);
    }
    let v = to_chars(text);
    let kept: usize = trim_end(text).as_str().unicode_len();
    let tail = to_chars(from_chars(v.as_slice(), kept, v.len()).as_str());
    assert(tail@ =~= text@.skip(trimmed_end(text@).len() as int));
    match (find_char(tail.as_slice(), '\n'), rfind_char(tail.as_slice(), '\n')) {
        (Some(a), Some(b)) => a != b,
        (None, None) => false,
        _ => true,
    }
}

/// The letters that may stand before the quotes of a Python string.
pub open spec fn is_string_prefix(c: char) -> bool {
    c == 'r' || c == 'R' || c == 'b' || c == 'B' || c == 'f' || c == 'F' || c == 'u' || c == 'U'
}

/// `s` without its leading string-prefix letters.
pub open spec fn without_letters(s: Seq<char>) -> Seq<char>
    decreases s.len(),
{
    if s.len() > 0 && is_string_prefix(s[0]) {
        without_letters(s.drop_first())
    } else {
        s
    }
}

/// A string literal without the letters before its quotes.
pub open spec fn quoted_part(s: Seq<char>) -> Seq<char> {
    let u = without_letters(s);
    if u.len() > 0 && (u[0] == '"' || u[0] == '\'') {
        u
    } else {
        s
    }
}

/// What stands between a leading and a trailing `q`, where both are there.
pub open spec fn between(s: Seq<char>, q: Seq<char>) -> Option<Seq<char>> {
    match without_prefix(s, q) {
        Some(rest) => without_suffix(rest, q),
        None => None,
    }
}

/// A string literal without its quotes.
pub open spec fn unquoted(s: Seq<char>) -> Seq<char> {
    if let Some(t) = between(s, "\"\"\""@) {
        t
    } else if let Some(t) = between(s, "'''"@) {
        t
    } else if let Some(t) = between(s, "\""@) {
        t
    } else if let Some(t) = between(s, "'"@) {
        t
    } else {
        s
    }
}

/// A Python docstring as prose: unquoted, every line trimmed.
pub open spec fn python_prose(raw: Seq<char>) -> Seq<char> {
    let inner = unquoted(quoted_part(trimmed(raw)));
    trimmed(joined(lines_of(inner).map_values(|l: Seq<char>| trimmed(l)), "\n"@))
}

fn strip_letters(s: &str) -> (r: String)
    ensures
        r@ == without_letters(s@),
{
    let v = to_chars(s);
    let n: usize = v.len();
    let mut i: usize = 0;
    assert(s@.skip(0) =~= s@);
    while i < n && (v[i] == 'r' || v[i] == 'R' || v[i] == 'b' || v[i] == 'B' || v[i] == 'f' || v[i]
        == 'F' || v[i] == 'u' || v[i] == 'U')
        invariant
            n == v@.len(),
            i <= n,
            v@ == s@,
            without_letters(s@) == without_letters(s@.skip(i as int)),
        decreases n - i,
    {
        assert(s@.skip(i as int).drop_first() =~= s@.skip(i + 1));
        i += 1;
    }
    assert(s@.skip(i as int) =~= v@.subrange(i as int, n as int));
    from_chars(v.as_slice(), i, n)
}

fn strip_quotes(s: &str, q: &str) -> (r: Option<String>)
    ensures
        r.deep_view() == between(s@, q@),
{
    match strip_prefix(s, q) {
        Some(rest) => strip_suffix(rest.as_str(), q),
        None => None,
    }
}

fn unquote(s: &str) -> (r: String)
    ensures
        r@ == unquoted(s@),
{
    if let Some(t) = strip_quotes(s, "\"\"\"") {
        t
    } else if let Some(t) = strip_quotes(s, "'''") {
        t
    } else if let Some(t) = strip_quotes(s, "\"") {
        t
    } else if let Some(t) = strip_quotes(s, "'") {
        t
    } else {
        s.to_string()
    }
}

/// Takes prefix letters, quotes and indentation off a Python docstring.
pub fn clean_python_docstring(raw: &str) -> (r: String)
    ensures
        r@ == python_prose(raw@),
{
    let t = trim(raw);
    let u = strip_letters(t.as_str());
    let uv = to_chars(u.as_str());
    let s = if uv.len() > 0 && (uv[0] == '"' || uv[0] == '\'') {
        u
    } else {
        t
    };
    assert(s@ == quoted_part(trimmed(raw@)));
    let inner = unquote(s.as_str());
    let raw_lines = lines(inner.as_str());
    let ghost rl = raw_lines.deep_view();
    let ghost want = rl.map_values(|l: Seq<char>| trimmed(l));
    let mut list: Vec<String> = Vec::new();
    let mut i: usize = 0;
    assert(list.deep_view() =~= want.take(0));
    while i < raw_lines.len()
        invariant
            i <= raw_lines@.len(),
            rl == raw_lines.deep_view(),
            want == rl.map_values(|l: Seq<char>| trimmed(l)),
            list.deep_view() == want.take(i as int),
        decreases raw_lines@.len() - i,
    {
        let ghost before = list.deep_view();
        let c = trim(raw_lines[i].as_str());
        list.push(c);
        proof {
            assert(want[i as int] == c@);
            assert(list.deep_view() =~= before.push(c@));
            assert(want.take(i + 1) =~= want.take(i as int).push(want[i as int]));
        }
        i += 1;
    }
    assert(want.take(i as int) =~= want);
    trim(join(&list, "\n").as_str())
}

/// The last position at which `::` stands in `s`.
pub open spec fn last_scope(s: Seq<char>, from: int) -> Option<int>
    decreases from + 1,
{
    if from < 0 {
        None
    } else if occurs_at(s, "::"@, from) {
        Some(from)
    } else {
        last_scope(s, from - 1)
    }
}

/// The last segment of a qualified name: what stands after the last `::`, and
/// of that what stands after the last `.`.
pub open spec fn last_segment(s: Seq<char>) -> Seq<char> {
    let after = match last_scope(s, s.len() as int) {
        Some(i) => s.skip(i + 2),
        None => s,
    };
    trimmed(after_last(after, '.'))
}

/// The last segment of a qualified name.
pub fn last_identifier_segment(text: &str) -> (r: String)
    ensures
        r@ == last_segment(text@),
{
    let v = to_chars(text);
    let q = to_chars("::");
    let n: usize = v.len();
    proof {
        reveal_strlit("::");
    }
    let mut i: usize = n;
    let mut found = matches_at(v.as_slice(), q.as_slice(), i);
    while i > 0 && !found
        invariant
            i <= n,
            n == v@.len(),
            v@ == text@,
            q@ == "::"@,
            found == occurs_at(text@, "::"@, i as int),
            last_scope(text@, text@.len() as int) == last_scope(text@, i as int),
        decreases i,
    {
        i -= 1;
        found = matches_at(v.as_slice(), q.as_slice(), i);
    }
    let after = if found {
        assert(text@.subrange(i + 2, n as int) =~= text@.skip(i + 2));
        from_chars(v.as_slice(), i + 2, n)
    } else {
        assert(last_scope(text@, -1) is None);
        text.to_string()
    };
    trim(tail_after(after.as_str(), '.').as_str())
}

// ---------------------------------------------------------------------------
// Laws
// ---------------------------------------------------------------------------

proof fn lemma_skip_is_part(s: Seq<char>, k: int)
    requires
        0 <= k <= s.len(),
    ensures
        occurs(s, s.skip(k)),
{
    assert(s.skip(k) =~= s.subrange(k, s.len() as int));
    assert(occurs_at(s, s.skip(k), k));
}

/// A cleaned line is a part of the line: what is taken away stands around it.
pub proof fn law_cleaning_takes_only_from_the_ends(line: Seq<char>)
    ensures
        occurs(line, clean_line_of(line)),
{
    let t = trimmed(line);
    let m = without_marker(t);
    let w = without_star(m);
    lemma_trimmed_is_part(line);
    lemma_skip_is_part(t, t.len() - m.len());
    if has_prefix(t, "///"@) || has_prefix(t, "//!"@) || has_prefix(t, "//"@) {
        assert(m =~= t.skip(t.len() - m.len()));
    } else {
        assert(m =~= t.skip(0));
    }
    assert(""@.len() == 0) by {
        reveal_strlit("");
    }
    assert(w.len() <= m.len());
    lemma_skip_is_part(m, m.len() - w.len());
    assert(w =~= m.skip(m.len() - w.len()));
    lemma_trimmed_is_part(w);
    lemma_part_of_part(m, t, line);
    lemma_part_of_part(w, m, line);
    lemma_part_of_part(trimmed(w), w, line);
}

/// No text of a comment is lost: every line of it, cleaned, stands in its prose,
/// but for the tags of a JSDoc comment, which are folded.
pub proof fn law_prose_holds_every_line(raw: Seq<char>, language: Seq<char>, k: int)
    requires
        !is_jsdoc(trimmed(raw), language),
        0 <= k < lines_of(comment_inner(trimmed(raw))).len(),
        clean_line_of(lines_of(comment_inner(trimmed(raw)))[k]).len() > 0,
    ensures
        occurs(
            prose_of(raw, language),
            clean_line_of(lines_of(comment_inner(trimmed(raw)))[k]),
        ),
{
    let inner = lines_of(comment_inner(trimmed(raw)));
    let ls = inner.map_values(|l: Seq<char>| clean_line_of(l));
    let p = ls[k];
    let w = without_star(without_marker(trimmed(inner[k])));
    assert(p == trimmed(w));
    law_trimming_takes_only_whitespace(w);
    lemma_joined_holds(ls, "\n"@, k);
    lemma_part_survives_both(joined(ls, "\n"@), p);
}

/// The inner text of a comment is a part of it, without the marks of a block.
pub proof fn law_inner_text_is_a_part(raw: Seq<char>)
    ensures
        occurs(raw, comment_inner(raw)),
        !has_prefix(raw, "/*"@) && !has_prefix(raw, "/**"@) ==> comment_inner(raw) == raw,
{
    let inner = comment_inner(raw);
    let opened = has_prefix(raw, "/**"@) || has_prefix(raw, "/*"@);
    if opened {
        let n = if has_prefix(raw, "/**"@) {
            "/**"@.len() as int
        } else {
            "/*"@.len() as int
        };
        let s = raw.skip(n);
        lemma_skip_is_part(raw, n);
        assert(inner =~= s.subrange(0, inner.len() as int));
        assert(occurs_at(s, inner, 0));
        lemma_part_of_part(inner, s, raw);
    } else {
        assert(raw.skip(0) =~= raw);
        lemma_skip_is_part(raw, 0);
    }
}

/// The prose of a docstring holds every line of what is quoted.
pub proof fn law_python_prose_holds_every_line(raw: Seq<char>, k: int)
    requires
        0 <= k < lines_of(unquoted(quoted_part(trimmed(raw)))).len(),
        trimmed(lines_of(unquoted(quoted_part(trimmed(raw))))[k]).len() > 0,
    ensures
        occurs(
            python_prose(raw),
            trimmed(lines_of(unquoted(quoted_part(trimmed(raw))))[k]),
        ),
{
    let inner = lines_of(unquoted(quoted_part(trimmed(raw))));
    let ls = inner.map_values(|l: Seq<char>| trimmed(l));
    let p = ls[k];
    law_trimming_takes_only_whitespace(inner[k]);
    lemma_joined_holds(ls, "\n"@, k);
    lemma_part_survives_both(joined(ls, "\n"@), p);
}

/// A parameter's line is folded into its name and what is said of it, whatever its
/// type; a line without a tag stays as it is.
pub proof fn law_folding(line: Seq<char>)
    ensures
        trimmed(line).len() > 0 && trimmed(line)[0] != '@' ==> folded_line(line) == Some(
            trimmed(line),
        ),
        trimmed(line).len() == 0 ==> folded_line(line) is None,
        has_prefix(trimmed(line), "@returns"@) && folded_line(line) is Some && !has_prefix(
            trimmed(line),
            "@param"@,
        ) ==> has_prefix(folded_line(line)->0, "Returns: "@),
{
    let t = trimmed(line);
    reveal_strlit("@param");
    reveal_strlit("@returns");
    reveal_strlit("@return");
    reveal_strlit("@description");
    reveal_strlit("@");
    if t.len() > 0 && t[0] != '@' {
        assert(!has_prefix(t, "@param"@)) by {
            if has_prefix(t, "@param"@) {
                assert(t.take(6)[0] == t[0]);
            }
        }
        assert(!has_prefix(t, "@returns"@)) by {
            if has_prefix(t, "@returns"@) {
                assert(t.take(8)[0] == t[0]);
            }
        }
        assert(!has_prefix(t, "@return"@)) by {
            if has_prefix(t, "@return"@) {
                assert(t.take(7)[0] == t[0]);
            }
        }
        assert(!has_prefix(t, "@description"@)) by {
            if has_prefix(t, "@description"@) {
                assert(t.take(12)[0] == t[0]);
            }
        }
        assert(!has_prefix(t, "@"@)) by {
            if has_prefix(t, "@"@) {
                assert(t.take(1)[0] == t[0]);
            }
        }
    }
    if has_prefix(t, "@returns"@) && folded_line(line) is Some && !has_prefix(t, "@param"@) {
        let r = folded_line(line)->0;
        assert(r.take("Returns: "@.len() as int) =~= "Returns: "@);
    }
}

/// The last segment of a name is what stands behind its last `::` and its last dot:
/// it holds no dot.
pub proof fn law_last_segments_hold_no_dot(s: Seq<char>)
    ensures
        !last_segment(s).contains('.'),
{
    let after = match last_scope(s, s.len() as int) {
        Some(i) => s.skip(i + 2),
        None => s,
    };
    let tail = after_last(after, '.');
    law_last_position(after, '.');
    law_trimming_takes_only_whitespace(tail);
    let t = trimmed(tail);
    if t.contains('.') {
        let k = choose|k: int| 0 <= k < t.len() && t[k] == '.';
        let i = tail.len() - trimmed_start(tail).len();
        assert(tail[i + k] == '.');
        match last_position(after, '.') {
            Some(j) => {
                assert(after[j + 1 + i + k] == '.');
            },
            None => {
                assert(after[i + k] == '.');
            },
        }
    }
}

/// A line of three slashes is a doc comment in Rust, C, C++ and C#, one of four is
/// not; a block of two stars is one in every language but Python, whose docs are no
/// comments; in Go any comment is one.
pub proof fn law_doc_comments(c: char, rest: Seq<char>, language: Seq<char>)
    requires
        c != '/',
        c != '*',
    ensures
        is_doc_comment(seq!['/', '/', '/', c] + rest, language) <==> language == "go"@ || language
            == "rust"@ || language == "c"@ || language == "cpp"@ || language == "csharp"@,
        is_doc_comment(seq!['/', '*', '*', c] + rest, language) <==> language != "python"@,
        is_doc_comment(seq!['/', '/', '/', '/'] + rest, language) <==> language == "go"@,
        is_doc_comment(seq!['/', '*', '*', '*'] + rest, language) <==> language == "go"@,
        is_doc_comment(seq!['/', '/', c] + rest, language) <==> language == "go"@,
{
    reveal_strlit("///");
    reveal_strlit("////");
    reveal_strlit("/**");
    reveal_strlit("/***");
    reveal_strlit("/**/");
    lemma_languages_differ();
    let a = seq!['/', '/', '/', c] + rest;
    let b = seq!['/', '*', '*', c] + rest;
    let d = seq!['/', '/', '/', '/'] + rest;
    let e = seq!['/', '*', '*', '*'] + rest;
    let f = seq!['/', '/', c] + rest;
    assert(a.take(3) =~= "///"@);
    assert(a.take(4)[3] == c);
    assert(a.take(3)[1] == '/');
    assert(b.take(3) =~= "/**"@);
    assert(b.take(4)[3] == c);
    assert(b.take(3)[1] == '*');
    assert(d.take(3) =~= "///"@);
    assert(d.take(4) =~= "////"@);
    assert(d.take(3)[1] == '/');
    assert(e.take(3) =~= "/**"@);
    assert(e.take(4) =~= "/***"@);
    assert(e.take(3)[1] == '*');
    assert(f.take(3)[2] == c);
    assert("///"@[1] == '/' && "///"@[2] == '/' && "/**"@[1] == '*' && "/**"@[2] == '*');
    assert("////"@[3] == '/' && "/***"@[3] == '*' && "/**/"@[3] == '/');
}

proof fn lemma_languages_differ()
    ensures
        "python"@ != "go"@,
        "python"@ != "rust"@,
        "python"@ != "c"@,
        "python"@ != "cpp"@,
        "python"@ != "csharp"@,
        "go"@ != "rust"@,
        "go"@ != "c"@,
        "go"@ != "cpp"@,
        "go"@ != "csharp"@,
{
    reveal_strlit("python");
    reveal_strlit("go");
    reveal_strlit("rust");
    reveal_strlit("c");
    reveal_strlit("cpp");
    reveal_strlit("csharp");
    assert("python"@[0] == 'p' && "csharp"@[0] == 'c');
    assert("python"@.len() == 6 && "go"@.len() == 2 && "rust"@.len() == 4 && "c"@.len() == 1
        && "cpp"@.len() == 3 && "csharp"@.len() == 6);
}

/// Cleaning a line takes off the marks of a comment, and of a line inside a block
/// the star: what was written behind them is left.
pub proof fn law_cleaning_takes_off_the_marks(t: Seq<char>)
    requires
        t.len() > 0,
        !is_white(t[0]),
        !is_white(t.last()),
        t[0] != '*',
        t[0] != '/',
    ensures
        clean_line_of(seq!['/', '/', '/', ' '] + t) == t,
        clean_line_of(seq!['/', '/', '!', ' '] + t) == t,
        clean_line_of(seq!['/', '/', ' '] + t) == t,
        clean_line_of(seq!['*', ' '] + t) == t,
        clean_line_of(t) == t,
{
    reveal_strlit("///");
    reveal_strlit("//!");
    reveal_strlit("//");
    reveal_strlit("* ");
    reveal_strlit("*");
    let a = seq!['/', '/', '/', ' '] + t;
    let b = seq!['/', '/', '!', ' '] + t;
    let c = seq!['/', '/', ' '] + t;
    let d = seq!['*', ' '] + t;
    let spaced = seq![' '] + t;
    lemma_kept_whole(a);
    lemma_kept_whole(b);
    lemma_kept_whole(c);
    lemma_kept_whole(d);
    lemma_kept_whole(t);
    assert(a.take(3) =~= "///"@);
    assert(a.skip(3) =~= spaced);
    assert(b.take(3) =~= "//!"@);
    assert(b.take(3)[2] == '!');
    assert("///"@[2] == '/');
    assert(b.skip(3) =~= spaced);
    assert(c.take(2) =~= "//"@);
    assert(c.take(3)[2] == ' ');
    assert("//!"@[2] == '!');
    assert(c.skip(2) =~= spaced);
    assert("///"@[0] == '/' && "//!"@[0] == '/' && "//"@[0] == '/');
    assert("* "@[0] == '*' && "*"@[0] == '*');
    assert(d.take(2) =~= "* "@);
    assert(d.take(3)[0] == '*');
    assert(d.take(2)[0] == '*');
    assert(d.skip(2) =~= t);
    assert(spaced.take(2)[0] == ' ');
    assert(spaced.take(1)[0] == ' ');
    assert(without_star(spaced) == spaced);
    assert(spaced.drop_first() =~= t);
    assert(trimmed(spaced) == t) by {
        assert(trimmed_start(t) == t);
        assert(trimmed_start(spaced) == t);
    }
    if t.len() >= 3 {
        assert(t.take(3)[0] == t[0]);
    }
    if t.len() >= 2 {
        assert(t.take(2)[0] == t[0]);
    }
    assert(t.take(1)[0] == t[0]);
    assert(without_marker(t) == t);
    assert(without_star(t) == t);
    assert(without_marker(d) == d);
}

proof fn lemma_kept_whole(s: Seq<char>)
    requires
        s.len() > 0,
        !is_white(s[0]),
        !is_white(s.last()),
    ensures
        trimmed(s) == s,
{
}

/// The last segment of a qualified name is what stands behind the last of its marks,
/// be it `::` or a dot.
pub proof fn law_last_segments(a: Seq<char>, b: Seq<char>)
    requires
        b.len() > 0,
        !is_white(b[0]),
        !is_white(b.last()),
        !b.contains(':'),
        !b.contains('.'),
    ensures
        last_segment(a + "::"@ + b) == b,
        last_segment(a + "."@ + b) == b,
        last_segment(b) == b,
{
    reveal_strlit("::");
    reveal_strlit(".");
    lemma_kept_whole(b);
    let s = a + "::"@ + b;
    let n = a.len() as int;
    assert(s.subrange(n, n + 2) =~= "::"@);
    assert(occurs_at(s, "::"@, n));
    assert forall|i: int| i > n implies !#[trigger] occurs_at(s, "::"@, i) by {
        if occurs_at(s, "::"@, i) {
            assert(s.subrange(i, i + 2)[1] == ':');
            assert(s[i + 1] == ':');
            assert(b[i + 1 - n - 2] == ':');
        }
    }
    lemma_scope_found(s, s.len() as int, n);
    assert(s.skip(n + 2) =~= b);
    lemma_no_dot(b);
    let t = a + "."@ + b;
    let m = t.len() as int;
    assert forall|i: int| i >= n implies !#[trigger] occurs_at(t, "::"@, i) by {
        if occurs_at(t, "::"@, i) {
            assert(t.subrange(i, i + 2)[1] == ':');
            assert(t[i + 1] == ':');
            assert(b[i + 1 - n - 1] == ':');
        }
    }
    lemma_scope_below(t, m, n);
    let from = match last_scope(t, m) {
        Some(i) => i + 2,
        None => 0,
    };
    let after = t.skip(from);
    assert(t.skip(0) =~= t);
    assert(from <= n) by {
        if let Some(i) = last_scope(t, m) {
            assert(occurs_at(t, "::"@, i));
            if i + 2 > n {
                assert(t.subrange(i, i + 2)[1] == ':');
                assert(t[i + 1] == t[n]);
            }
        }
    }
    assert(after.skip(n - from + 1) =~= b);
    lemma_behind_dot(after, n - from, b);
    assert forall|i: int| !#[trigger] occurs_at(b, "::"@, i) by {
        if occurs_at(b, "::"@, i) {
            assert(b.subrange(i, i + 2)[0] == ':');
            assert(b[i] == ':');
        }
    }
    lemma_scope_below(b, b.len() as int, -1);
}

proof fn lemma_no_dot(b: Seq<char>)
    requires
        !b.contains('.'),
    ensures
        after_last(b, '.') == b,
{
    law_last_position(b, '.');
    if let Some(i) = last_position(b, '.') {
        assert(b[i] == '.');
    }
}

proof fn lemma_behind_dot(s: Seq<char>, k: int, b: Seq<char>)
    requires
        0 <= k < s.len(),
        s[k] == '.',
        s.skip(k + 1) == b,
        !b.contains('.'),
    ensures
        after_last(s, '.') == b,
{
    law_last_position(s, '.');
    match last_position(s, '.') {
        Some(i) => {
            if i > k {
                assert(s.skip(k + 1)[i - k - 1] == s[i]);
                assert(b[i - k - 1] == '.');
            }
            assert(i == k);
        },
        None => {},
    }
}

proof fn lemma_scope_found(s: Seq<char>, from: int, n: int)
    requires
        0 <= n <= from,
        occurs_at(s, "::"@, n),
        forall|i: int| i > n ==> !#[trigger] occurs_at(s, "::"@, i),
    ensures
        last_scope(s, from) == Some(n),
    decreases from - n,
{
    if from > n {
        assert(!occurs_at(s, "::"@, from));
        lemma_scope_found(s, from - 1, n);
    }
}

proof fn lemma_scope_below(s: Seq<char>, from: int, n: int)
    requires
        forall|i: int| i >= n ==> !#[trigger] occurs_at(s, "::"@, i),
    ensures
        last_scope(s, from) matches Some(i) ==> 0 <= i < n && occurs_at(s, "::"@, i),
    decreases from + 1,
{
    if from >= 0 && !occurs_at(s, "::"@, from) {
        lemma_scope_below(s, from - 1, n);
    }
}

/// A parameter's tag is folded into its name and what is said of it.
pub proof fn law_parameters_are_folded(name: Seq<char>, desc: Seq<char>)
    requires
        name.len() > 0,
        forall|k: int| 0 <= k < name.len() ==> !is_white(#[trigger] name[k]),
        name[0] != '{',
        desc.len() > 0,
        !is_white(desc[0]),
        !is_white(desc.last()),
    ensures
        folded_line("@param "@ + name + seq![' '] + desc) == Some(name + ": "@ + desc),
        folded_line("@param "@ + name) == Some(name),
{
    reveal_strlit("@param");
    reveal_strlit("@param ");
    let r = name + seq![' '] + desc;
    let t = "@param "@ + name + seq![' '] + desc;
    let u = "@param "@ + name;
    lemma_kept_whole(t);
    lemma_kept_whole(u);
    assert(t.take(6) =~= "@param"@);
    assert(u.take(6) =~= "@param"@);
    assert(t.skip(6) =~= seq![' '] + r);
    assert(u.skip(6) =~= seq![' '] + name);
    lemma_spaced(r);
    lemma_spaced(name);
    lemma_first_white(name, seq![' '] + desc);
    assert(r =~= name + (seq![' '] + desc));
    assert(r.take(name.len() as int) =~= name);
    assert(r.skip((name.len() + 1) as int) =~= desc);
    lemma_kept_whole(name);
    lemma_kept_whole(desc);
    lemma_no_white(name);
}

proof fn lemma_spaced(s: Seq<char>)
    requires
        s.len() > 0,
        !is_white(s[0]),
        !is_white(s.last()),
    ensures
        trimmed(seq![' '] + s) == s,
{
    let t = seq![' '] + s;
    assert(t.drop_first() =~= s);
    assert(trimmed_start(s) == s);
    assert(trimmed_start(t) == s);
}

proof fn lemma_first_white(s: Seq<char>, rest: Seq<char>)
    requires
        rest.len() > 0,
        is_white(rest[0]),
        forall|k: int| 0 <= k < s.len() ==> !is_white(#[trigger] s[k]),
    ensures
        white_position(s + rest) == Some(s.len() as int),
    decreases s.len(),
{
    let t = s + rest;
    if s.len() > 0 {
        assert(t[0] == s[0]);
        assert(t.drop_first() =~= s.drop_first() + rest);
        assert forall|k: int| 0 <= k < s.drop_first().len() implies !is_white(
            #[trigger] s.drop_first()[k],
        ) by {
            assert(s.drop_first()[k] == s[k + 1]);
        }
        lemma_first_white(s.drop_first(), rest);
    } else {
        assert(t[0] == rest[0]);
    }
}

proof fn lemma_no_white(s: Seq<char>)
    requires
        forall|k: int| 0 <= k < s.len() ==> !is_white(#[trigger] s[k]),
    ensures
        white_position(s) is None,
    decreases s.len(),
{
    if s.len() > 0 {
        assert(!is_white(s[0]));
        assert forall|k: int| 0 <= k < s.drop_first().len() implies !is_white(
            #[trigger] s.drop_first()[k],
        ) by {
            assert(s.drop_first()[k] == s[k + 1]);
        }
        lemma_no_white(s.drop_first());
    }
}

} // verus!
