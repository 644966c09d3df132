//! Text building blocks: whitespace, trimming, splitting, joining, searching
//! and comparing, each with its meaning as a function on sequences of `char`.
use vstd::prelude::*;

verus! {

/// `String::push`: appends one character at the end.
pub assume_specification[ String::push ](s: &mut String, ch: char)
    ensures
        final(s)@ == old(s)@.push(ch),
;

/// `str`'s `==`: two string slices are equal when they hold the same text.
#[verifier::external_body]
pub(crate) fn same(a: &str, b: &str) -> (r: bool)
    ensures
        r == (a@ == b@),
{
    a == b
}

/// The views of the texts of a list of string slices.
pub open spec fn str_views(v: Seq<&str>) -> Seq<Seq<char>> {
    Seq::new(v.len(), |i: int| v[i]@)
}

/// The characters of a text.
pub fn to_chars(s: &str) -> (r: Vec<char>)
    ensures
        r@ == s@,
{
    let mut out: Vec<char> = Vec::new();
    for c in it: s.chars()
        invariant
            it.seq() == s@,
            out@ == s@.take(it.index() as int),
    {
        out.push(c);
    }
    out
}

/// The text of the characters from `from` up to `to`.
pub fn from_chars(v: &[char], from: usize, to: usize) -> (r: String)
    requires
        from <= to <= v@.len(),
    ensures
        r@ == v@.subrange(from as int, to as int),
{
    let mut out = String::new();
    let mut i: usize = from;
    while i < to
        invariant
            from <= i <= to <= v@.len(),
            out@ == v@.subrange(from as int, i as int),
        decreases to - i,
    {
        out.push(v[i]);
        i += 1;
    }
    out
}

// ---------------------------------------------------------------------------
// Whitespace and trimming
// ---------------------------------------------------------------------------

/// The characters with Unicode's `White_Space` property.
pub open spec fn is_white(c: char) -> bool {
    ||| '\u{9}' <= c <= '\u{d}'
    ||| c == ' '
    ||| c == '\u{85}'
    ||| c == '\u{a0}'
    ||| c == '\u{1680}'
    ||| '\u{2000}' <= c <= '\u{200a}'
    ||| c == '\u{2028}'
    ||| c == '\u{2029}'
    ||| c == '\u{202f}'
    ||| c == '\u{205f}'
    ||| c == '\u{3000}'
}

/// Whether `c` is whitespace.
pub fn is_whitespace(c: char) -> (r: bool)
    ensures
        r == is_white(c),
{
    ('\u{9}' <= c && c <= '\u{d}') || c == ' ' || c == '\u{85}' || c == '\u{a0}' || c == '\u{1680}'
        || ('\u{2000}' <= c && c <= '\u{200a}') || c == '\u{2028}' || c == '\u{2029}' || c
        == '\u{202f}' || c == '\u{205f}' || c == '\u{3000}'
}

/// `s` without its leading whitespace.
pub open spec fn trimmed_start(s: Seq<char>) -> Seq<char>
    decreases s.len(),
{
    if s.len() > 0 && is_white(s[0]) {
        trimmed_start(s.drop_first())
    } else {
        s
    }
}

/// `s` without its trailing whitespace.
pub open spec fn trimmed_end(s: Seq<char>) -> Seq<char>
    decreases s.len(),
{
    if s.len() > 0 && is_white(s.last()) {
        trimmed_end(s.drop_last())
    } else {
        s
    }
}

/// `s` without the whitespace at either end.
pub open spec fn trimmed(s: Seq<char>) -> Seq<char> {
    trimmed_end(trimmed_start(s))
}

/// Drops leading whitespace.
pub fn trim_start(s: &str) -> (r: String)
    ensures
        r@ == trimmed_start(s@),
{
    let v = to_chars(s);
    let n: usize = v.len();
    let mut i: usize = 0;
    assert(s@.skip(0) =~= s@);
    while i < n && is_whitespace(v[i])
        invariant
            n == v@.len(),
            i <= n,
            v@ == s@,
            trimmed_start(s@) == trimmed_start(s@.skip(i as int)),
        decreases n - i,
    {
        assert(s@.skip(i as int).drop_first() =~= s@.skip(i + 1));
        i += 1;
    }
    assert(s@.skip(i as int) =~= v@.subrange(i as int, n as int));
    from_chars(v.as_slice(), i, n)
}

/// Drops trailing whitespace.
pub fn trim_end(s: &str) -> (r: String)
    ensures
        r@ == trimmed_end(s@),
{
    let v = to_chars(s);
    let mut i: usize = v.len();
    assert(s@.take(i as int) =~= s@);
    while i > 0 && is_whitespace(v[i - 1])
        invariant
            i <= v@.len(),
            v@ == s@,
            trimmed_end(s@) == trimmed_end(s@.take(i as int)),
        decreases i,
    {
        assert(s@.take(i as int).drop_last() =~= s@.take(i - 1));
        i -= 1;
    }
    assert(s@.take(i as int) =~= v@.subrange(0, i as int));
    from_chars(v.as_slice(), 0, i)
}

/// Drops whitespace at both ends.
pub fn trim(s: &str) -> (r: String)
    ensures
        r@ == trimmed(s@),
{
    let t = trim_start(s);
    trim_end(t.as_str())
}

/// Whether `s` holds nothing but whitespace.
pub fn is_blank(s: &str) -> (r: bool)
    ensures
        r == (trimmed(s@).len() == 0),
{
    let t = trim(s);
    t.unicode_len() == 0
}

// ---------------------------------------------------------------------------
// Prefixes, suffixes and searching
// ---------------------------------------------------------------------------

/// Whether `s` begins with `p`.
pub open spec fn has_prefix(s: Seq<char>, p: Seq<char>) -> bool {
    p.len() <= s.len() && s.take(p.len() as int) == p
}

/// Whether `s` ends with `p`.
pub open spec fn has_suffix(s: Seq<char>, p: Seq<char>) -> bool {
    p.len() <= s.len() && s.skip(s.len() - p.len()) == p
}

/// `s` without the prefix `p`, where it has it.
pub open spec fn without_prefix(s: Seq<char>, p: Seq<char>) -> Option<Seq<char>> {
    if has_prefix(s, p) {
        Some(s.skip(p.len() as int))
    } else {
        None
    }
}

/// `s` without the suffix `p`, where it has it.
pub open spec fn without_suffix(s: Seq<char>, p: Seq<char>) -> Option<Seq<char>> {
    if has_suffix(s, p) {
        Some(s.take(s.len() - p.len()))
    } else {
        None
    }
}

/// Whether `p` stands in `s` at position `i`.
pub open spec fn occurs_at(s: Seq<char>, p: Seq<char>, i: int) -> bool {
    0 <= i && i + p.len() <= s.len() && s.subrange(i, i + p.len()) == p
}

/// Whether `p` stands somewhere in `s`.
pub open spec fn occurs(s: Seq<char>, p: Seq<char>) -> bool {
    exists|i: int| occurs_at(s, p, i)
}

/// Whether the pattern stands in the text at `at`.
pub fn matches_at(v: &[char], p: &[char], at: usize) -> (r: bool)
    ensures
        r == occurs_at(v@, p@, at as int),
{
    let n: usize = v.len();
    let m: usize = p.len();
    if at > n || m > n - at {
        return false;
    }
    let mut k: usize = 0;
    while k < m
        invariant
            n == v@.len(),
            m == p@.len(),
            at + m <= n,
            k <= m,
            forall|j: int| 0 <= j < k ==> v@[at + j] == p@[j],
        decreases m - k,
    {
        if v[at + k] != p[k] {
            assert(v@.subrange(at as int, at + m)[k as int] != p@[k as int]);
            return false;
        }
        k += 1;
    }
    assert(v@.subrange(at as int, at + m) =~= p@);
    true
}

/// Whether `s` begins with `p`.
pub fn starts_with(s: &str, p: &str) -> (r: bool)
    ensures
        r == has_prefix(s@, p@),
{
    let v = to_chars(s);
    let q = to_chars(p);
    assert(p@.len() <= s@.len() ==> s@.subrange(0, p@.len() as int) =~= s@.take(p@.len() as int));
    matches_at(v.as_slice(), q.as_slice(), 0)
}

/// Whether `s` ends with `p`.
pub fn ends_with(s: &str, p: &str) -> (r: bool)
    ensures
        r == has_suffix(s@, p@),
{
    let v = to_chars(s);
    let q = to_chars(p);
    if q.len() > v.len() {
        return false;
    }
    let at: usize = v.len() - q.len();
    assert(s@.subrange(at as int, at + p@.len()) =~= s@.skip(at as int));
    matches_at(v.as_slice(), q.as_slice(), at)
}

/// Drops the prefix `p`, where `s` has it.
pub fn strip_prefix(s: &str, p: &str) -> (r: Option<String>)
    ensures
        r.deep_view() == without_prefix(s@, p@),
{
    if starts_with(s, p) {
        let n: usize = s.unicode_len();
        let m: usize = p.unicode_len();
        assert(s@.subrange(m as int, n as int) =~= s@.skip(m as int));
        Some(s.substring_char(m, n).to_string())
    } else {
        None
    }
}

/// Drops the suffix `p`, where `s` has it.
pub fn strip_suffix(s: &str, p: &str) -> (r: Option<String>)
    ensures
        r.deep_view() == without_suffix(s@, p@),
{
    if ends_with(s, p) {
        let n: usize = s.unicode_len();
        let m: usize = p.unicode_len();
        assert(s@.subrange(0, n - m) =~= s@.take(n - m));
        Some(s.substring_char(0, n - m).to_string())
    } else {
        None
    }
}

/// The first position from `from` on at which `p` stands in `v`.
pub fn find_from(v: &[char], p: &[char], from: usize) -> (r: Option<usize>)
    ensures
        match r {
            Some(i) => from <= i && occurs_at(v@, p@, i as int) && forall|j: int|
                from <= j < i ==> !occurs_at(v@, p@, j),
            None => forall|j: int| from <= j ==> !occurs_at(v@, p@, j),
        },
{
    let n: usize = v.len();
    let mut i: usize = from;
    while i < n
        invariant
            n == v@.len(),
            from <= i,
            forall|j: int| from <= j < i ==> !occurs_at(v@, p@, j),
        decreases n - i,
    {
        if matches_at(v, p, i) {
            return Some(i);
        }
        i += 1;
    }
    if i == n && matches_at(v, p, n) {
        return Some(n);
    }
    None
}

/// Whether `p` stands somewhere in `s`.
pub fn contains(s: &str, p: &str) -> (r: bool)
    ensures
        r == occurs(s@, p@),
{
    let v = to_chars(s);
    let q = to_chars(p);
    find_from(v.as_slice(), q.as_slice(), 0).is_some()
}

/// The first position of `c` in `s`.
pub open spec fn position(s: Seq<char>, c: char) -> Option<int>
    decreases s.len(),
{
    if s.len() == 0 {
        None
    } else {
        match position(s.drop_last(), c) {
            Some(i) => Some(i),
            None => if s.last() == c {
                Some(s.len() - 1)
            } else {
                None
            },
        }
    }
}

/// The last position of `c` in `s`.
pub open spec fn last_position(s: Seq<char>, c: char) -> Option<int>
    decreases s.len(),
{
    if s.len() == 0 {
        None
    } else if s.last() == c {
        Some(s.len() - 1)
    } else {
        last_position(s.drop_last(), c)
    }
}

/// Where `c` does not occur, it has no last position.
pub proof fn lemma_last_position(s: Seq<char>, c: char)
    requires
        forall|i: int| 0 <= i < s.len() ==> #[trigger] s[i] != c,
    ensures
        last_position(s, c) is None,
    decreases s.len(),
{
    if s.len() > 0 {
        assert(s[s.len() - 1] != c);
        assert forall|i: int| 0 <= i < s.drop_last().len() implies #[trigger] s.drop_last()[i]
            != c by {
            assert(s[i] != c);
        }
        lemma_last_position(s.drop_last(), c);
    }
}

/// The first position of `c`.
pub fn find_char(v: &[char], c: char) -> (r: Option<usize>)
    ensures
        match r {
            Some(i) => position(v@, c) == Some(i as int) && i < v@.len(),
            None => position(v@, c) is None,
        },
{
    let mut i: usize = 0;
    while i < v.len()
        invariant
            i <= v@.len(),
            position(v@.take(i as int), c) is None,
        decreases v@.len() - i,
    {
        assert(v@.take(i + 1).drop_last() =~= v@.take(i as int));
        if v[i] == c {
            proof {
                lemma_position_take(v@, c, i + 1);
            }
            return Some(i);
        }
        i += 1;
    }
    assert(v@.take(i as int) =~= v@);
    None
}

/// A position found in a prefix is the position in the whole.
pub proof fn lemma_position_take(s: Seq<char>, c: char, k: int)
    requires
        0 <= k <= s.len(),
        position(s.take(k), c) is Some,
    ensures
        position(s, c) == position(s.take(k), c),
    decreases s.len() - k,
{
    if k == s.len() {
        assert(s.take(k) =~= s);
    } else {
        assert(s.take(k + 1).drop_last() =~= s.take(k));
        lemma_position_take(s, c, k + 1);
    }
}

/// The last position of `c`.
pub fn rfind_char(v: &[char], c: char) -> (r: Option<usize>)
    ensures
        match r {
            Some(i) => last_position(v@, c) == Some(i as int) && i < v@.len(),
            None => last_position(v@, c) is None,
        },
{
    let mut i: usize = v.len();
    assert(v@.take(i as int) =~= v@);
    while i > 0
        invariant
            i <= v@.len(),
            last_position(v@.take(i as int), c) == last_position(v@, c),
        decreases i,
    {
        assert(v@.take(i as int).drop_last() =~= v@.take(i - 1));
        i -= 1;
        if v[i] == c {
            return Some(i);
        }
    }
    None
}

// ---------------------------------------------------------------------------
// Splitting and joining
// ---------------------------------------------------------------------------

/// The pieces of `s` between occurrences of `sep`: always at least one.
pub open spec fn pieces(s: Seq<char>, sep: char) -> Seq<Seq<char>>
    decreases s.len(),
{
    if s.len() == 0 {
        seq![Seq::<char>::empty()]
    } else {
        let head = pieces(s.drop_last(), sep);
        if s.last() == sep {
            head.push(Seq::<char>::empty())
        } else {
            head.drop_last().push(head.last().push(s.last()))
        }
    }
}

/// Splits at every `sep`.
pub fn split(s: &str, sep: char) -> (r: Vec<String>)
    ensures
        r.deep_view() == pieces(s@, sep),
        r@.len() >= 1,
{
    let v = to_chars(s);
    let mut out: Vec<String> = Vec::new();
    let mut cur = String::new();
    let mut i: usize = 0;
    assert(pieces(s@.take(0), sep) =~= seq![Seq::<char>::empty()]);
    while i < v.len()
        invariant
            i <= v@.len(),
            v@ == s@,
            out.deep_view().push(cur@) == pieces(s@.take(i as int), sep),
        decreases v@.len() - i,
    {
        proof {
            assert(s@.take(i + 1).drop_last() =~= s@.take(i as int));
        }
        let ghost before = out.deep_view();
        let ghost c0 = cur@;
        let c = v[i];
        if c == sep {
            out.push(cur);
            cur = String::new();
            assert(out.deep_view() =~= before.push(c0));
        } else {
            cur.push(c);
            assert(before.push(c0).drop_last() =~= before);
        }
        i += 1;
    }
    assert(s@.take(i as int) =~= s@);
    let ghost before = out.deep_view();
    let ghost c0 = cur@;
    out.push(cur);
    assert(out.deep_view() =~= before.push(c0));
    out
}

/// `s` without one trailing carriage return.
pub open spec fn without_cr(s: Seq<char>) -> Seq<char> {
    if s.len() > 0 && s.last() == '\r' {
        s.drop_last()
    } else {
        s
    }
}

/// The lines of `s`: split at line feeds, each terminated line without a
/// carriage return before its line feed, and no empty line after the last
/// line feed.
pub open spec fn lines_of(s: Seq<char>) -> Seq<Seq<char>> {
    let p = pieces(s, '\n');
    let done = p.drop_last().map_values(|l: Seq<char>| without_cr(l));
    if p.last().len() == 0 {
        done
    } else {
        done.push(p.last())
    }
}

/// Splits into lines.
pub fn lines(s: &str) -> (r: Vec<String>)
    ensures
        r.deep_view() == lines_of(s@),
{
    let mut p = split(s, '\n');
    let ghost pv = p.deep_view();
    let last = p.pop().unwrap();
    assert(p.deep_view() =~= pv.drop_last());
    assert(last@ == pv.last());
    let mut out: Vec<String> = Vec::new();
    let mut i: usize = 0;
    while i < p.len()
        invariant
            i <= p@.len(),
            p.deep_view() == pv.drop_last(),
            out.deep_view() == pv.drop_last().take(i as int).map_values(
                |l: Seq<char>| without_cr(l),
            ),
        decreases p@.len() - i,
    {
        let ghost before = out.deep_view();
        let line = p[i].as_str();
        assert(line@ == pv.drop_last()[i as int]);
        proof {
            reveal_strlit("\r");
        }
        let t = match strip_suffix(line, "\r") {
            Some(t) => {
                assert(line@.skip(line@.len() - 1)[0] == '\r');
                assert(t@ =~= without_cr(line@));
                t
            },
            None => {
                proof {
                    if line@.len() > 0 && line@.last() == '\r' {
                        assert(line@.skip(line@.len() - 1) =~= "\r"@);
                    }
                }
                line.to_string()
            },
        };
        out.push(t);
        assert(out.deep_view() =~= before.push(t@));
        assert(out.deep_view() =~= pv.drop_last().take(i + 1).map_values(
            |l: Seq<char>| without_cr(l),
        ));
        i += 1;
    }
    assert(pv.drop_last().take(i as int) =~= pv.drop_last());
    if last.unicode_len() > 0 {
        let ghost before = out.deep_view();
        let ghost l0 = last@;
        out.push(last);
        assert(out.deep_view() =~= before.push(l0));
    }
    out
}

/// The texts one after the other with `sep` between them.
pub open spec fn joined(parts: Seq<Seq<char>>, sep: Seq<char>) -> Seq<char>
    decreases parts.len(),
{
    if parts.len() == 0 {
        Seq::<char>::empty()
    } else if parts.len() == 1 {
        parts[0]
    } else {
        joined(parts.drop_last(), sep) + sep + parts.last()
    }
}

/// Joins texts with a separator.
pub fn join(parts: &Vec<String>, sep: &str) -> (r: String)
    ensures
        r@ == joined(parts.deep_view(), sep@),
{
    let mut out = String::new();
    let mut i: usize = 0;
    let ghost pv = parts.deep_view();
    assert(pv.take(0) =~= Seq::<Seq<char>>::empty());
    while i < parts.len()
        invariant
            i <= parts@.len(),
            pv == parts.deep_view(),
            out@ == joined(pv.take(i as int), sep@),
        decreases parts@.len() - i,
    {
        assert(pv.take(i + 1).drop_last() =~= pv.take(i as int));
        assert(pv.take(i + 1).last() == parts@[i as int]@);
        if i > 0 {
            out.append(sep);
        }
        out.append(parts[i].as_str());
        assert(i == 0 ==> out@ =~= parts@[0]@);
        i += 1;
    }
    assert(pv.take(i as int) =~= pv);
    out
}

/// `s` with every occurrence of `from`, read left to right, replaced by `to`.
/// An empty `from` replaces nothing.
pub open spec fn replaced(s: Seq<char>, from: Seq<char>, to: Seq<char>) -> Seq<char>
    decreases s.len(),
{
    if s.len() == 0 || from.len() == 0 {
        s
    } else if has_prefix(s, from) {
        to + replaced(s.skip(from.len() as int), from, to)
    } else {
        seq![s[0]] + replaced(s.drop_first(), from, to)
    }
}

/// Replaces every occurrence of a nonempty text.
pub fn replace(s: &str, from: &str, to: &str) -> (r: String)
    requires
        from@.len() > 0,
    ensures
        r@ == replaced(s@, from@, to@),
{
    let v = to_chars(s);
    let f = to_chars(from);
    let mut out = String::new();
    let mut i: usize = 0;
    assert(s@.skip(0) =~= s@);
    assert(Seq::<char>::empty() + replaced(s@, from@, to@) =~= replaced(s@, from@, to@));
    while i < v.len()
        invariant
            i <= v@.len(),
            v@ == s@,
            f@ == from@,
            from@.len() > 0,
            out@ + replaced(s@.skip(i as int), from@, to@) == replaced(s@, from@, to@),
        decreases v@.len() - i,
    {
        let ghost rest = s@.skip(i as int);
        let ghost o0 = out@;
        proof {
            if i + f@.len() <= s@.len() {
                assert(rest.take(f@.len() as int) =~= s@.subrange(i as int, i + f@.len()));
            }
        }
        if matches_at(v.as_slice(), f.as_slice(), i) {
            out.append(to);
            assert(rest.skip(f@.len() as int) =~= s@.skip(i + f@.len()));
            assert(o0 + (to@ + replaced(s@.skip(i + f@.len()), from@, to@)) =~= (o0 + to@)
                + replaced(s@.skip(i + f@.len()), from@, to@));
            i += f.len();
        } else {
            out.push(v[i]);
            assert(rest.drop_first() =~= s@.skip(i + 1));
            assert(o0 + (seq![rest[0]] + replaced(s@.skip(i + 1), from@, to@)) =~= o0.push(rest[0])
                + replaced(s@.skip(i + 1), from@, to@));
            i += 1;
        }
    }
    assert(s@.skip(i as int) =~= Seq::<char>::empty());
    assert(out@ + Seq::<char>::empty() =~= out@);
    out
}

/// What stands after the last `c`, or all of `s` where there is none.
pub open spec fn after_last(s: Seq<char>, c: char) -> Seq<char> {
    match last_position(s, c) {
        Some(i) => s.skip(i + 1),
        None => s,
    }
}

/// What stands before the last `c`, or nothing where there is none.
pub open spec fn before_last(s: Seq<char>, c: char) -> Seq<char> {
    match last_position(s, c) {
        Some(i) => s.take(i),
        None => Seq::<char>::empty(),
    }
}

/// The part after the last `c`.
pub fn tail_after(s: &str, c: char) -> (r: String)
    ensures
        r@ == after_last(s@, c),
{
    let v = to_chars(s);
    let n: usize = v.len();
    match rfind_char(v.as_slice(), c) {
        Some(i) => {
            assert(s@.subrange(i + 1, s@.len() as int) =~= s@.skip(i + 1));
            from_chars(v.as_slice(), i + 1, n)
        },
        None => s.to_string(),
    }
}

/// The part before the last `c`.
pub fn head_before(s: &str, c: char) -> (r: String)
    ensures
        r@ == before_last(s@, c),
{
    let v = to_chars(s);
    match rfind_char(v.as_slice(), c) {
        Some(i) => {
            assert(s@.subrange(0, i as int) =~= s@.take(i as int));
            from_chars(v.as_slice(), 0, i)
        },
        None => String::new(),
    }
}

/// `s` without any number of `p` at its end.
pub open spec fn without_trailing(s: Seq<char>, p: Seq<char>) -> Seq<char>
    decreases s.len(),
{
    if p.len() > 0 && has_suffix(s, p) {
        without_trailing(s.take(s.len() - p.len()), p)
    } else {
        s
    }
}

/// Drops any number of `p` at the end.
pub fn trim_end_matches(s: &str, p: &str) -> (r: String)
    requires
        p@.len() > 0,
    ensures
        r@ == without_trailing(s@, p@),
{
    let mut cur = s.to_string();
    while ends_with(cur.as_str(), p)
        invariant
            p@.len() > 0,
            without_trailing(s@, p@) == without_trailing(cur@, p@),
        decreases cur@.len(),
    {
        cur =
        match strip_suffix(cur.as_str(), p) {
            Some(t) => t,
            None => {
                return cur;
            },
        };
    }
    cur
}

/// `s` without any number of `c` at its beginning.
pub open spec fn without_leading(s: Seq<char>, c: char) -> Seq<char>
    decreases s.len(),
{
    if s.len() > 0 && s[0] == c {
        without_leading(s.drop_first(), c)
    } else {
        s
    }
}

/// Drops any number of `c` at the beginning.
pub fn trim_start_char(s: &str, c: char) -> (r: String)
    ensures
        r@ == without_leading(s@, c),
{
    let v = to_chars(s);
    let n: usize = v.len();
    let mut i: usize = 0;
    assert(s@.skip(0) =~= s@);
    while i < n && v[i] == c
        invariant
            n == v@.len(),
            i <= n,
            v@ == s@,
            without_leading(s@, c) == without_leading(s@.skip(i as int), c),
        decreases n - i,
    {
        assert(s@.skip(i as int).drop_first() =~= s@.skip(i + 1));
        i += 1;
    }
    assert(s@.skip(i as int) =~= v@.subrange(i as int, n as int));
    from_chars(v.as_slice(), i, n)
}

/// Trimming never makes a text longer.
pub proof fn lemma_trimmed_len(s: Seq<char>)
    ensures
        trimmed_start(s).len() <= s.len(),
        trimmed_end(s).len() <= s.len(),
        trimmed(s).len() <= s.len(),
    decreases s.len(),
{
    if s.len() > 0 {
        lemma_trimmed_len(s.drop_first());
        lemma_trimmed_len(s.drop_last());
    }
    if trimmed_start(s).len() < s.len() {
        lemma_trimmed_len(trimmed_start(s));
    }
}

// ---------------------------------------------------------------------------
// Numbers
// ---------------------------------------------------------------------------

/// The character of a decimal digit.
pub open spec fn digit(d: nat) -> char {
    (('0' as u32 + d) as u8) as char
}

/// `n` in decimal.
pub open spec fn decimal(n: nat) -> Seq<char>
    decreases n,
{
    if n < 10 {
        seq![digit(n)]
    } else {
        decimal(n / 10).push(digit(n % 10))
    }
}

/// Writes a number in decimal.
pub fn show_u64(n: u64) -> (r: String)
    ensures
        r@ == decimal(n as nat),
    decreases n,
{
    if n < 10 {
        let mut out = String::new();
        out.push((48u8 + n as u8) as char);
        assert(out@ =~= seq![digit(n as nat)]);
        out
    } else {
        let mut out = show_u64(n / 10);
        out.push((48u8 + (n % 10) as u8) as char);
        out
    }
}

/// Writes a count in decimal.
pub fn show_usize(n: usize) -> (r: String)
    ensures
        r@ == decimal(n as nat),
{
    show_u64(n as u64)
}

/// Whether `c` is an ASCII decimal digit.
pub open spec fn is_digit(c: char) -> bool {
    '0' <= c <= '9'
}

/// The value of a run of decimal digits.
pub open spec fn digits_value(s: Seq<char>) -> nat
    decreases s.len(),
{
    if s.len() == 0 {
        0
    } else {
        digits_value(s.drop_last()) * 10 + (s.last() as u32 - '0' as u32) as nat
    }
}

/// `s` without a leading `+`.
pub open spec fn unsigned_part(s: Seq<char>) -> Seq<char> {
    if s.len() > 0 && s[0] == '+' {
        s.drop_first()
    } else {
        s
    }
}

/// Whether every character is a decimal digit.
pub open spec fn all_digits(s: Seq<char>) -> bool {
    forall|i: int| 0 <= i < s.len() ==> is_digit(#[trigger] s[i])
}

/// A text read as a count: an optional `+` and one or more decimal digits,
/// within the range of `usize`.
pub open spec fn count_value(s: Seq<char>) -> Option<nat> {
    let d = unsigned_part(s);
    if d.len() > 0 && all_digits(d) && digits_value(d) <= usize::MAX {
        Some(digits_value(d))
    } else {
        None
    }
}

/// A number is the value of its digits.
pub proof fn lemma_decimal_value(n: nat)
    ensures
        digits_value(decimal(n)) == n,
        all_digits(decimal(n)),
        decimal(n).len() > 0,
    decreases n,
{
    if n < 10 {
        assert(decimal(n).drop_last() =~= Seq::<char>::empty());
        assert(digits_value(decimal(n).drop_last()) == 0);
    } else {
        lemma_decimal_value(n / 10);
        assert(decimal(n).drop_last() =~= decimal(n / 10));
        assert forall|i: int| 0 <= i < decimal(n).len() implies is_digit(
            #[trigger] decimal(n)[i],
        ) by {
            if i < decimal(n).len() - 1 {
                assert(decimal(n)[i] == decimal(n / 10)[i]);
            }
        }
    }
}

/// Leading zeros do not change a value.
pub proof fn lemma_leading_zeros(zeros: Seq<char>, s: Seq<char>)
    requires
        forall|i: int| 0 <= i < zeros.len() ==> #[trigger] zeros[i] == '0',
    ensures
        digits_value(zeros + s) == digits_value(s),
    decreases zeros.len() + s.len(),
{
    if s.len() > 0 {
        assert((zeros + s).drop_last() =~= zeros + s.drop_last());
        lemma_leading_zeros(zeros, s.drop_last());
    } else if zeros.len() > 0 {
        assert((zeros + s).drop_last() =~= zeros.drop_last() + s);
        lemma_leading_zeros(zeros.drop_last(), s);
    }
}

proof fn lemma_digits_grow(s: Seq<char>, k: int)
    requires
        0 <= k <= s.len(),
    ensures
        digits_value(s.take(k)) <= digits_value(s),
    decreases s.len() - k,
{
    if k == s.len() {
        assert(s.take(k) =~= s);
    } else {
        lemma_digits_grow(s, k + 1);
        assert(s.take(k + 1).drop_last() =~= s.take(k));
    }
}

/// Reads a count.
pub fn parse_usize(s: &str) -> (r: Option<usize>)
    ensures
        match r {
            Some(n) => count_value(s@) == Some(n as nat),
            None => count_value(s@) is None,
        },
{
    let v = to_chars(s);
    let n: usize = v.len();
    let start: usize = if n > 0 && v[0] == '+' {
        1
    } else {
        0
    };
    let ghost d = unsigned_part(s@);
    assert(d =~= s@.skip(start as int));
    if start == n {
        return None;
    }
    let mut value: usize = 0;
    let mut i: usize = start;
    while i < n
        invariant
            n == v@.len(),
            start <= i <= n,
            v@ == s@,
            d == unsigned_part(s@),
            d == s@.skip(start as int),
            value == digits_value(d.take(i - start)),
            forall|j: int| 0 <= j < i - start ==> is_digit(d[j]),
        decreases n - i,
    {
        let c = v[i];
        assert(d[i - start] == c);
        assert(is_digit(d[i - start]) == ('0' <= c && c <= '9'));
        if !('0' <= c && c <= '9') {
            return None;
        }
        let k: usize = c as usize - 48;
        proof {
            assert(d.take(i - start + 1).drop_last() =~= d.take(i - start));
            assert(digits_value(d.take(i - start + 1)) == value * 10 + k);
            lemma_digits_grow(d, i - start + 1);
        }
        if value > (usize::MAX - k) / 10 {
            return None;
        }
        value = value * 10 + k;
        i += 1;
    }
    assert(d.take(n - start) =~= d);
    Some(value)
}

// ---------------------------------------------------------------------------
// ASCII case and order
// ---------------------------------------------------------------------------

/// The ASCII lower case of a character.
pub open spec fn lower(c: char) -> char {
    if 'A' <= c <= 'Z' {
        ((c as u32 + 32) as u8) as char
    } else {
        c
    }
}

/// A text in ASCII lower case.
pub open spec fn lowered(s: Seq<char>) -> Seq<char> {
    s.map_values(|c: char| lower(c))
}

/// The ASCII lower case of a character.
pub fn to_lower(c: char) -> (r: char)
    ensures
        r == lower(c),
{
    if 'A' <= c && c <= 'Z' {
        (c as u8 + 32u8) as char
    } else {
        c
    }
}

/// Turns a text into ASCII lower case.
pub fn to_ascii_lowercase(s: &str) -> (r: String)
    ensures
        r@ == lowered(s@),
{
    let v = to_chars(s);
    let mut out = String::new();
    let mut i: usize = 0;
    while i < v.len()
        invariant
            i <= v@.len(),
            v@ == s@,
            out@ == lowered(s@.take(i as int)),
        decreases v@.len() - i,
    {
        let ghost o0 = out@;
        out.push(to_lower(v[i]));
        assert(lowered(s@.take(i + 1)) =~= o0.push(lower(s@[i as int])));
        i += 1;
    }
    assert(s@.take(i as int) =~= s@);
    out
}

/// Whether two texts are equal up to ASCII case.
pub fn eq_ignore_ascii_case(a: &str, b: &str) -> (r: bool)
    ensures
        r == (lowered(a@) == lowered(b@)),
{
    let x = to_ascii_lowercase(a);
    let y = to_ascii_lowercase(b);
    same(x.as_str(), y.as_str())
}

/// Whether `a` stands before `b` in the order of their characters' code
/// points, which is also the order of their UTF-8 bytes.
pub open spec fn precedes(a: Seq<char>, b: Seq<char>) -> bool
    decreases a.len(),
{
    if b.len() == 0 {
        false
    } else if a.len() == 0 {
        true
    } else if a[0] != b[0] {
        a[0] < b[0]
    } else {
        precedes(a.drop_first(), b.drop_first())
    }
}

/// Whether `a` stands before `b`.
pub fn less(a: &str, b: &str) -> (r: bool)
    ensures
        r == precedes(a@, b@),
{
    let x = to_chars(a);
    let y = to_chars(b);
    let mut i: usize = 0;
    assert(a@.skip(0) =~= a@);
    assert(b@.skip(0) =~= b@);
    while i < x.len() && i < y.len()
        invariant
            i <= x@.len(),
            i <= y@.len(),
            x@ == a@,
            y@ == b@,
            precedes(a@, b@) == precedes(a@.skip(i as int), b@.skip(i as int)),
        decreases x@.len() - i,
    {
        if x[i] != y[i] {
            return x[i] < y[i];
        }
        assert(a@.skip(i as int).drop_first() =~= a@.skip(i + 1));
        assert(b@.skip(i as int).drop_first() =~= b@.skip(i + 1));
        i += 1;
    }
    i < y.len()
}

/// The order is irreflexive.
pub proof fn lemma_precedes_irreflexive(a: Seq<char>)
    ensures
        !precedes(a, a),
    decreases a.len(),
{
    if a.len() > 0 {
        lemma_precedes_irreflexive(a.drop_first());
    }
}

/// The order is transitive.
pub proof fn lemma_precedes_transitive(a: Seq<char>, b: Seq<char>, c: Seq<char>)
    requires
        precedes(a, b),
        precedes(b, c),
    ensures
        precedes(a, c),
    decreases a.len(),
{
    if a.len() > 0 && a[0] == b[0] && b[0] == c[0] {
        lemma_precedes_transitive(a.drop_first(), b.drop_first(), c.drop_first());
    }
}

/// Of two different texts one stands before the other.
pub proof fn lemma_precedes_total(a: Seq<char>, b: Seq<char>)
    ensures
        a == b || precedes(a, b) || precedes(b, a),
    decreases a.len(),
{
    if a.len() > 0 && b.len() > 0 && a[0] == b[0] {
        lemma_precedes_total(a.drop_first(), b.drop_first());
        if a.drop_first() == b.drop_first() {
            assert(a =~= seq![a[0]] + a.drop_first());
            assert(b =~= seq![b[0]] + b.drop_first());
        }
    } else if a.len() == 0 && b.len() == 0 {
        assert(a =~= b);
    }
}

// ---------------------------------------------------------------------------
// Lists of texts
// ---------------------------------------------------------------------------

/// `list` with `x` at its end, unless it holds `x` already.
pub open spec fn with_text(list: Seq<Seq<char>>, x: Seq<char>) -> Seq<Seq<char>> {
    if list.contains(x) {
        list
    } else {
        list.push(x)
    }
}

/// The texts of a list in order, each at its first occurrence only.
pub open spec fn distinct(list: Seq<Seq<char>>) -> Seq<Seq<char>>
    decreases list.len(),
{
    if list.len() == 0 {
        list
    } else {
        with_text(distinct(list.drop_last()), list.last())
    }
}

/// Dropping repetitions keeps what a list holds and leaves each text once.
pub proof fn lemma_distinct(list: Seq<Seq<char>>)
    ensures
        distinct(list).no_duplicates(),
        forall|x: Seq<char>| distinct(list).contains(x) <==> list.contains(x),
    decreases list.len(),
{
    if list.len() > 0 {
        let head = list.drop_last();
        let x0 = list.last();
        lemma_distinct(head);
        lemma_with_text(distinct(head), x0);
        assert forall|x: Seq<char>| list.contains(x) <==> (head.contains(x) || x == x0) by {
            if head.contains(x) {
                let i = choose|i: int| 0 <= i < head.len() && head[i] == x;
                assert(list[i] == x);
            }
            if x == x0 {
                assert(list[list.len() - 1] == x);
            }
            if list.contains(x) && x != x0 {
                let i = choose|i: int| 0 <= i < list.len() && list[i] == x;
                assert(head[i] == x);
            }
        }
    }
}

/// Adding a text once keeps the rest and repeats nothing.
pub proof fn lemma_with_text(list: Seq<Seq<char>>, x: Seq<char>)
    ensures
        list.no_duplicates() ==> with_text(list, x).no_duplicates(),
        forall|y: Seq<char>| with_text(list, x).contains(y) <==> (list.contains(y) || y == x),
{
    let w = with_text(list, x);
    assert forall|y: Seq<char>| w.contains(y) <==> (list.contains(y) || y == x) by {
        if !list.contains(x) {
            if list.contains(y) {
                let i = choose|i: int| 0 <= i < list.len() && list[i] == y;
                assert(w[i] == y);
            }
            if y == x {
                assert(w[list.len() as int] == y);
            }
        }
    }
}

/// Whether a list holds a text.
pub fn has_text(list: &Vec<String>, x: &str) -> (r: bool)
    ensures
        r == list.deep_view().contains(x@),
{
    let mut i: usize = 0;
    while i < list.len()
        invariant
            i <= list@.len(),
            forall|j: int| 0 <= j < i ==> list.deep_view()[j] != x@,
        decreases list@.len() - i,
    {
        if same(list[i].as_str(), x) {
            assert(list.deep_view()[i as int] == x@);
            return true;
        }
        i += 1;
    }
    false
}

/// Adds a text to a list that does not hold it yet.
pub fn add_text(list: &mut Vec<String>, x: &str)
    ensures
        final(list).deep_view() == with_text(old(list).deep_view(), x@),
{
    if !has_text(list, x) {
        list.push(x.to_string());
        assert(list.deep_view() =~= old(list).deep_view().push(x@));
    }
}

/// Drops all but the first occurrence of each text.
pub fn dedup(list: &Vec<String>) -> (r: Vec<String>)
    ensures
        r.deep_view() == distinct(list.deep_view()),
{
    let mut out: Vec<String> = Vec::new();
    let mut i: usize = 0;
    let ghost lv = list.deep_view();
    assert(out.deep_view() =~= distinct(lv.take(0)));
    while i < list.len()
        invariant
            i <= list@.len(),
            lv == list.deep_view(),
            out.deep_view() == distinct(lv.take(i as int)),
        decreases list@.len() - i,
    {
        assert(lv.take(i + 1).drop_last() =~= lv.take(i as int));
        assert(lv.take(i + 1).last() == list@[i as int]@);
        add_text(&mut out, list[i].as_str());
        i += 1;
    }
    assert(lv.take(i as int) =~= lv);
    out
}

// ---------------------------------------------------------------------------
// Parts
// ---------------------------------------------------------------------------

/// What stands between two texts is part of the whole.
pub proof fn lemma_part_between(a: Seq<char>, p: Seq<char>, b: Seq<char>)
    ensures
        occurs(a + p + b, p),
{
    let s = a + p + b;
    assert(s.subrange(a.len() as int, (a.len() + p.len()) as int) =~= p);
    assert(occurs_at(s, p, a.len() as int));
}

/// A stretch of a text is part of it.
pub proof fn lemma_part_stretch(s: Seq<char>, i: int, j: int)
    requires
        0 <= i <= j <= s.len(),
    ensures
        occurs(s, s.subrange(i, j)),
{
    assert(occurs_at(s, s.subrange(i, j), i));
}

/// A part of a part is a part.
pub proof fn lemma_part_of_part(p: Seq<char>, q: Seq<char>, s: Seq<char>)
    requires
        occurs(q, p),
        occurs(s, q),
    ensures
        occurs(s, p),
{
    let i = choose|i: int| occurs_at(q, p, i);
    let j = choose|j: int| occurs_at(s, q, j);
    assert(s.subrange(j + i, j + i + p.len()) =~= q.subrange(i, i + p.len()));
    assert(occurs_at(s, p, j + i));
}

/// A text trimmed at its end begins the text; trimmed at its start it ends it.
pub proof fn lemma_trimmed_is_part(s: Seq<char>)
    ensures
        trimmed_end(s) == s.take(trimmed_end(s).len() as int),
        trimmed_start(s) == s.skip(s.len() - trimmed_start(s).len()),
        occurs(s, trimmed_end(s)),
        occurs(s, trimmed_start(s)),
        occurs(s, trimmed(s)),
{
    lemma_trimmed_len(s);
    lemma_trimmed_end_begins(s);
    lemma_trimmed_start_ends(s);
    let t = trimmed_start(s);
    lemma_trimmed_len(t);
    lemma_trimmed_end_begins(t);
    assert(s.take(trimmed_end(s).len() as int) =~= s.subrange(0, trimmed_end(s).len() as int));
    assert(s.skip(s.len() - t.len()) =~= s.subrange(s.len() - t.len(), s.len() as int));
    assert(t.take(trimmed_end(t).len() as int) =~= t.subrange(0, trimmed_end(t).len() as int));
    lemma_part_stretch(s, 0, trimmed_end(s).len() as int);
    lemma_part_stretch(s, s.len() - t.len(), s.len() as int);
    lemma_part_stretch(t, 0, trimmed_end(t).len() as int);
    lemma_part_of_part(trimmed(s), t, s);
}

proof fn lemma_trimmed_end_begins(s: Seq<char>)
    ensures
        trimmed_end(s) == s.take(trimmed_end(s).len() as int),
        trimmed_end(s).len() <= s.len(),
    decreases s.len(),
{
    if s.len() > 0 && is_white(s.last()) {
        let h = s.drop_last();
        lemma_trimmed_end_begins(h);
        assert(h.take(trimmed_end(h).len() as int) =~= s.take(trimmed_end(h).len() as int));
    } else {
        assert(s.take(s.len() as int) =~= s);
    }
}

proof fn lemma_trimmed_start_ends(s: Seq<char>)
    ensures
        trimmed_start(s) == s.skip(s.len() - trimmed_start(s).len()),
        trimmed_start(s).len() <= s.len(),
    decreases s.len(),
{
    if s.len() > 0 && is_white(s[0]) {
        let h = s.drop_first();
        lemma_trimmed_start_ends(h);
        let k = trimmed_start(h).len();
        assert(h.skip(h.len() - k) =~= s.skip(s.len() - k));
    } else {
        assert(s.skip(0) =~= s);
    }
}

/// The last position of a character is one at which it stands.
pub proof fn lemma_last_position_range(s: Seq<char>, c: char)
    ensures
        last_position(s, c) matches Some(i) ==> 0 <= i < s.len() && s[i] == c,
    decreases s.len(),
{
    if s.len() > 0 && s.last() != c {
        lemma_last_position_range(s.drop_last(), c);
    }
}

/// What stands after the last of a character is part of the text.
pub proof fn lemma_tail_is_part(s: Seq<char>, c: char)
    ensures
        occurs(s, after_last(s, c)),
{
    lemma_last_position_range(s, c);
    let from = match last_position(s, c) {
        Some(i) => i + 1,
        None => 0,
    };
    let tail = after_last(s, c);
    assert(tail =~= s.subrange(from, s.len() as int));
    assert(occurs_at(s, tail, from));
}

/// Joined with a separator, every text is part of the whole.
pub proof fn lemma_joined_holds(parts: Seq<Seq<char>>, sep: Seq<char>, k: int)
    requires
        0 <= k < parts.len(),
    ensures
        occurs(joined(parts, sep), parts[k]),
    decreases parts.len(),
{
    let whole = joined(parts, sep);
    let none = Seq::<char>::empty();
    if parts.len() == 1 {
        lemma_part_between(none, parts[0], none);
        assert(none + parts[0] + none =~= whole);
    } else {
        let head = joined(parts.drop_last(), sep);
        if k == parts.len() - 1 {
            lemma_part_between(head + sep, parts.last(), none);
            assert(head + sep + parts.last() + none =~= whole);
        } else {
            lemma_joined_holds(parts.drop_last(), sep, k);
            lemma_part_between(none, head, sep + parts.last());
            assert(none + head + (sep + parts.last()) =~= whole);
            lemma_part_of_part(parts[k], head, whole);
        }
    }
}

/// A text holds its parts still when more is added.
pub proof fn lemma_part_stays(s: Seq<char>, p: Seq<char>, more: Seq<char>)
    requires
        occurs(s, p),
    ensures
        occurs(s + more, p),
{
    let i = choose|i: int| occurs_at(s, p, i);
    assert((s + more).subrange(i, i + p.len()) =~= s.subrange(i, i + p.len()));
    assert(occurs_at(s + more, p, i));
}

/// A text holds what was added to it last.
pub proof fn lemma_part_at_end(s: Seq<char>, p: Seq<char>)
    ensures
        occurs(s + p, p),
        has_suffix(s + p, p),
{
    assert((s + p).subrange(s.len() as int, (s + p).len() as int) =~= p);
    assert(occurs_at(s + p, p, s.len() as int));
    assert((s + p).skip(s.len() as int) =~= p);
}

// ---------------------------------------------------------------------------
// Laws
// ---------------------------------------------------------------------------

/// Trimming takes away all whitespace at both ends and nothing else: what is left
/// is a stretch of the text that neither begins nor ends with whitespace, and
/// around it there is only whitespace.
pub proof fn law_trimming_takes_only_whitespace(s: Seq<char>)
    ensures
        ({
            let t = trimmed(s);
            let i = s.len() - trimmed_start(s).len();
            &&& 0 <= i && i + t.len() <= s.len()
            &&& t == s.subrange(i, i + t.len())
            &&& t.len() > 0 ==> !is_white(t[0]) && !is_white(t.last())
            &&& forall|k: int| 0 <= k < i ==> is_white(#[trigger] s[k])
            &&& forall|k: int| i + t.len() <= k < s.len() ==> is_white(#[trigger] s[k])
        }),
{
    let u = trimmed_start(s);
    let t = trimmed_end(u);
    let i = s.len() - u.len();
    lemma_trimmed_start_white(s);
    lemma_trimmed_end_white(u);
    lemma_trimmed_start_ends(s);
    lemma_trimmed_end_begins(u);
    assert(s.subrange(i, i + t.len()) =~= u.take(t.len() as int)) by {
        assert(u == s.skip(i));
    }
    assert forall|k: int| i + t.len() <= k < s.len() implies is_white(#[trigger] s[k]) by {
        assert(u == s.skip(i));
        assert(u[k - i] == s[k]);
    }
    if t.len() > 0 {
        assert(t[0] == u[0]) by {
            assert(t == u.take(t.len() as int));
        }
    }
}

proof fn lemma_trimmed_start_white(s: Seq<char>)
    ensures
        forall|k: int| 0 <= k < s.len() - trimmed_start(s).len() ==> is_white(#[trigger] s[k]),
        trimmed_start(s).len() > 0 ==> !is_white(trimmed_start(s)[0]),
    decreases s.len(),
{
    if s.len() > 0 && is_white(s[0]) {
        let h = s.drop_first();
        lemma_trimmed_start_white(h);
        assert forall|k: int| 0 <= k < s.len() - trimmed_start(s).len() implies is_white(
            #[trigger] s[k],
        ) by {
            if k > 0 {
                assert(s[k] == h[k - 1]);
            }
        }
    }
}

/// Behind a text trimmed at its end there is only whitespace.
pub proof fn lemma_trimmed_end_white(s: Seq<char>)
    ensures
        forall|k: int| trimmed_end(s).len() <= k < s.len() ==> is_white(#[trigger] s[k]),
        trimmed_end(s).len() > 0 ==> !is_white(trimmed_end(s).last()),
    decreases s.len(),
{
    if s.len() > 0 && is_white(s.last()) {
        let h = s.drop_last();
        lemma_trimmed_end_white(h);
        assert forall|k: int| trimmed_end(s).len() <= k < s.len() implies is_white(
            #[trigger] s[k],
        ) by {
            if k < h.len() {
                assert(s[k] == h[k]);
            }
        }
    }
}

/// Taking a text apart at a separator loses nothing: joined with the separator its
/// pieces are the text again, and none of them holds the separator.
pub proof fn law_pieces_make_the_text(s: Seq<char>, sep: char)
    ensures
        pieces(s, sep).len() >= 1,
        joined(pieces(s, sep), seq![sep]) == s,
        forall|k: int| 0 <= k < pieces(s, sep).len() ==> !(#[trigger] pieces(s, sep)[k]).contains(sep),
    decreases s.len(),
{
    let p = pieces(s, sep);
    if s.len() == 0 {
        assert(joined(p, seq![sep]) =~= s);
    } else {
        let h = s.drop_last();
        let q = pieces(h, sep);
        law_pieces_make_the_text(h, sep);
        if s.last() == sep {
            assert(p.drop_last() =~= q);
            assert(joined(p, seq![sep]) =~= s);
        } else {
            let a = q.last().push(s.last());
            assert(p.drop_last() =~= q.drop_last());
            assert forall|k: int| 0 <= k < p.len() implies !(#[trigger] p[k]).contains(sep) by {
                if k < p.len() - 1 {
                    assert(p[k] == q[k]);
                } else {
                    assert(p[k] == a);
                    if a.contains(sep) {
                        let m = choose|m: int| 0 <= m < a.len() && a[m] == sep;
                        assert(q.last()[m] == sep);
                        assert(q[q.len() - 1].contains(sep));
                    }
                }
            }
            if q.len() == 1 {
                assert(joined(q, seq![sep]) == q[0]);
            } else {
                assert(joined(q, seq![sep]) == joined(q.drop_last(), seq![sep]) + seq![sep]
                    + q.last());
            }
            assert(joined(p, seq![sep]) =~= joined(q, seq![sep]).push(s.last()));
            assert(h.push(s.last()) =~= s);
        }
    }
}

/// The first position of a character is one at which it stands, and it stands at
/// no earlier one; without a position it stands nowhere.
pub proof fn law_first_position(s: Seq<char>, c: char)
    ensures
        position(s, c) matches Some(i) ==> 0 <= i < s.len() && s[i] == c && forall|k: int|
            0 <= k < i ==> #[trigger] s[k] != c,
        position(s, c) is None ==> forall|k: int| 0 <= k < s.len() ==> #[trigger] s[k] != c,
    decreases s.len(),
{
    if s.len() > 0 {
        let h = s.drop_last();
        law_first_position(h, c);
        assert(forall|k: int| 0 <= k < h.len() ==> #[trigger] s[k] == h[k]);
    }
}

/// The last position of a character is one at which it stands, and it stands at no
/// later one; without a position it stands nowhere.
pub proof fn law_last_position(s: Seq<char>, c: char)
    ensures
        last_position(s, c) matches Some(i) ==> 0 <= i < s.len() && s[i] == c && forall|k: int|
            i < k < s.len() ==> #[trigger] s[k] != c,
        last_position(s, c) is None ==> forall|k: int| 0 <= k < s.len() ==> #[trigger] s[k] != c,
    decreases s.len(),
{
    if s.len() > 0 && s.last() != c {
        let h = s.drop_last();
        law_last_position(h, c);
        assert(forall|k: int| 0 <= k < h.len() ==> #[trigger] s[k] == h[k]);
    }
}

/// Every part stands in a text that is put together from nine of them behind a
/// head, and the head begins it.
pub proof fn lemma_nine_parts(
    t: Seq<char>,
    h1: Seq<char>,
    h2: Seq<char>,
    h3: Seq<char>,
    h4: Seq<char>,
    h5: Seq<char>,
    h6: Seq<char>,
    h7: Seq<char>,
    h8: Seq<char>,
    h9: Seq<char>,
)
    ensures
        has_prefix(t + h1 + h2 + h3 + h4 + h5 + h6 + h7 + h8 + h9, t),
        occurs(t + h1 + h2 + h3 + h4 + h5 + h6 + h7 + h8 + h9, h1),
        occurs(t + h1 + h2 + h3 + h4 + h5 + h6 + h7 + h8 + h9, h2),
        occurs(t + h1 + h2 + h3 + h4 + h5 + h6 + h7 + h8 + h9, h3),
        occurs(t + h1 + h2 + h3 + h4 + h5 + h6 + h7 + h8 + h9, h4),
        occurs(t + h1 + h2 + h3 + h4 + h5 + h6 + h7 + h8 + h9, h5),
        occurs(t + h1 + h2 + h3 + h4 + h5 + h6 + h7 + h8 + h9, h6),
        occurs(t + h1 + h2 + h3 + h4 + h5 + h6 + h7 + h8 + h9, h7),
        occurs(t + h1 + h2 + h3 + h4 + h5 + h6 + h7 + h8 + h9, h8),
        occurs(t + h1 + h2 + h3 + h4 + h5 + h6 + h7 + h8 + h9, h9),
{
    let all = t + h1 + h2 + h3 + h4 + h5 + h6 + h7 + h8 + h9;
    assert(all.take(t.len() as int) =~= t);
    lemma_part_at_end(t, h1);
    lemma_part_stays(t + h1, h1, h2);
    lemma_part_stays(t + h1 + h2, h1, h3);
    lemma_part_stays(t + h1 + h2 + h3, h1, h4);
    lemma_part_stays(t + h1 + h2 + h3 + h4, h1, h5);
    lemma_part_stays(t + h1 + h2 + h3 + h4 + h5, h1, h6);
    lemma_part_stays(t + h1 + h2 + h3 + h4 + h5 + h6, h1, h7);
    lemma_part_stays(t + h1 + h2 + h3 + h4 + h5 + h6 + h7, h1, h8);
    lemma_part_stays(t + h1 + h2 + h3 + h4 + h5 + h6 + h7 + h8, h1, h9);
    lemma_part_at_end(t + h1, h2);
    lemma_part_stays(t + h1 + h2, h2, h3);
    lemma_part_stays(t + h1 + h2 + h3, h2, h4);
    lemma_part_stays(t + h1 + h2 + h3 + h4, h2, h5);
    lemma_part_stays(t + h1 + h2 + h3 + h4 + h5, h2, h6);
    lemma_part_stays(t + h1 + h2 + h3 + h4 + h5 + h6, h2, h7);
    lemma_part_stays(t + h1 + h2 + h3 + h4 + h5 + h6 + h7, h2, h8);
    lemma_part_stays(t + h1 + h2 + h3 + h4 + h5 + h6 + h7 + h8, h2, h9);
    lemma_part_at_end(t + h1 + h2, h3);
    lemma_part_stays(t + h1 + h2 + h3, h3, h4);
    lemma_part_stays(t + h1 + h2 + h3 + h4, h3, h5);
    lemma_part_stays(t + h1 + h2 + h3 + h4 + h5, h3, h6);
    lemma_part_stays(t + h1 + h2 + h3 + h4 + h5 + h6, h3, h7);
    lemma_part_stays(t + h1 + h2 + h3 + h4 + h5 + h6 + h7, h3, h8);
    lemma_part_stays(t + h1 + h2 + h3 + h4 + h5 + h6 + h7 + h8, h3, h9);
    lemma_part_at_end(t + h1 + h2 + h3, h4);
    lemma_part_stays(t + h1 + h2 + h3 + h4, h4, h5);
    lemma_part_stays(t + h1 + h2 + h3 + h4 + h5, h4, h6);
    lemma_part_stays(t + h1 + h2 + h3 + h4 + h5 + h6, h4, h7);
    lemma_part_stays(t + h1 + h2 + h3 + h4 + h5 + h6 + h7, h4, h8);
    lemma_part_stays(t + h1 + h2 + h3 + h4 + h5 + h6 + h7 + h8, h4, h9);
    lemma_part_at_end(t + h1 + h2 + h3 + h4, h5);
    lemma_part_stays(t + h1 + h2 + h3 + h4 + h5, h5, h6);
    lemma_part_stays(t + h1 + h2 + h3 + h4 + h5 + h6, h5, h7);
    lemma_part_stays(t + h1 + h2 + h3 + h4 + h5 + h6 + h7, h5, h8);
    lemma_part_stays(t + h1 + h2 + h3 + h4 + h5 + h6 + h7 + h8, h5, h9);
    lemma_part_at_end(t + h1 + h2 + h3 + h4 + h5, h6);
    lemma_part_stays(t + h1 + h2 + h3 + h4 + h5 + h6, h6, h7);
    lemma_part_stays(t + h1 + h2 + h3 + h4 + h5 + h6 + h7, h6, h8);
    lemma_part_stays(t + h1 + h2 + h3 + h4 + h5 + h6 + h7 + h8, h6, h9);
    lemma_part_at_end(t + h1 + h2 + h3 + h4 + h5 + h6, h7);
    lemma_part_stays(t + h1 + h2 + h3 + h4 + h5 + h6 + h7, h7, h8);
    lemma_part_stays(t + h1 + h2 + h3 + h4 + h5 + h6 + h7 + h8, h7, h9);
    lemma_part_at_end(t + h1 + h2 + h3 + h4 + h5 + h6 + h7, h8);
    lemma_part_stays(t + h1 + h2 + h3 + h4 + h5 + h6 + h7 + h8, h8, h9);
    lemma_part_at_end(t + h1 + h2 + h3 + h4 + h5 + h6 + h7 + h8, h9);
}

/// What ends in a character other than whitespace stays in a text that is trimmed
/// at its end.
pub proof fn lemma_part_survives_trimming(s: Seq<char>, p: Seq<char>)
    requires
        occurs(s, p),
        p.len() > 0,
        !is_white(p.last()),
    ensures
        occurs(trimmed_end(s), p),
{
    let t = trimmed_end(s);
    let i = choose|i: int| occurs_at(s, p, i);
    lemma_trimmed_end_white(s);
    lemma_trimmed_end_begins(s);
    let e = i + p.len() - 1;
    assert(s.subrange(i, i + p.len())[p.len() - 1] == p.last());
    assert(s[e] == p.last());
    assert(e < t.len());
    assert(t.subrange(i, i + p.len()) =~= s.subrange(i, i + p.len()));
    assert(occurs_at(t, p, i));
}

/// A text holds the three parts that were added to it last, one after the other.
pub proof fn lemma_three_at_end(head: Seq<char>, a: Seq<char>, b: Seq<char>, c: Seq<char>)
    ensures
        occurs(head + a + b + c, a + b + c),
{
    let p = a + b + c;
    let s = head + a + b + c;
    assert(s =~= head + p);
    assert(s.subrange(head.len() as int, s.len() as int) =~= p);
    assert(occurs_at(s, p, head.len() as int));
}

/// What begins and ends in a character other than whitespace stays in a text that
/// is trimmed.
pub proof fn lemma_part_survives_both(s: Seq<char>, p: Seq<char>)
    requires
        occurs(s, p),
        p.len() > 0,
        !is_white(p[0]),
        !is_white(p.last()),
    ensures
        occurs(trimmed(s), p),
{
    let u = trimmed_start(s);
    let i = choose|i: int| occurs_at(s, p, i);
    lemma_trimmed_start_white(s);
    lemma_trimmed_start_ends(s);
    let d = s.len() - u.len();
    assert(s.subrange(i, i + p.len())[0] == p[0]);
    assert(s[i] == p[0]);
    assert(i >= d);
    assert(u.subrange(i - d, i - d + p.len()) =~= s.subrange(i, i + p.len())) by {
        assert(u == s.skip(d));
    }
    assert(occurs_at(u, p, i - d));
    lemma_part_survives_trimming(u, p);
}

/// The lines of a text are parts of it, and none holds a line feed.
pub proof fn law_lines_are_parts(s: Seq<char>, k: int)
    requires
        0 <= k < lines_of(s).len(),
    ensures
        occurs(s, lines_of(s)[k]),
        !lines_of(s)[k].contains('\n'),
{
    let p = pieces(s, '\n');
    let l = lines_of(s)[k];
    law_pieces_make_the_text(s, '\n');
    lemma_joined_holds(p, seq!['\n'], k);
    assert(l == p[k] || l == without_cr(p[k]));
    let q = p[k];
    assert(q.take(l.len() as int) =~= l);
    assert(q.subrange(0, l.len() as int) =~= l);
    assert(occurs_at(q, l, 0));
    lemma_part_of_part(l, q, s);
    if l.contains('\n') {
        let m = choose|m: int| 0 <= m < l.len() && l[m] == '\n';
        assert(q[m] == '\n');
        assert(q.contains('\n'));
    }
}

/// A number is read back from its digits.
pub proof fn law_counts_read_back(n: nat)
    requires
        n <= usize::MAX,
    ensures
        count_value(decimal(n)) == Some(n),
{
    lemma_decimal_value(n);
    lemma_decimal_digits(n);
}

proof fn lemma_decimal_digits(n: nat)
    ensures
        decimal(n).len() > 0,
        all_digits(decimal(n)),
        decimal(n)[0] != '+',
    decreases n,
{
    if n >= 10 {
        lemma_decimal_digits(n / 10);
        let d = decimal(n);
        let h = decimal(n / 10);
        assert(d[0] == h[0]);
    }
}

/// Lowering a text changes its capital letters A to Z and no other character, and
/// doing it again changes nothing.
pub proof fn law_lowering(s: Seq<char>)
    ensures
        lowered(s).len() == s.len(),
        forall|k: int| 0 <= k < s.len() && !('A' <= s[k] <= 'Z') ==> #[trigger] lowered(s)[k] == s[k],
        forall|k: int|
            0 <= k < s.len() && 'A' <= s[k] <= 'Z' ==> 'a' <= #[trigger] lowered(s)[k] <= 'z'
                && lowered(s)[k] as u32 - 'a' as u32 == s[k] as u32 - 'A' as u32,
        lowered(lowered(s)) == lowered(s),
{
    assert(lowered(lowered(s)) =~= lowered(s));
}

/// Without the text to replace there is nothing to replace; what is put in the place
/// of a text that stands at the beginning stands there instead.
pub proof fn law_replacing(s: Seq<char>, from: Seq<char>, to: Seq<char>)
    requires
        from.len() > 0,
    ensures
        !occurs(s, from) ==> replaced(s, from, to) == s,
        replaced(from + s, from, to) == to + replaced(s, from, to),
    decreases s.len(),
{
    if s.len() > 0 && !occurs(s, from) {
        let rest = s.drop_first();
        assert(!has_prefix(s, from)) by {
            if has_prefix(s, from) {
                assert(s.subrange(0, from.len() as int) =~= s.take(from.len() as int));
                assert(occurs_at(s, from, 0));
            }
        }
        assert(!occurs(rest, from)) by {
            if occurs(rest, from) {
                let i = choose|i: int| occurs_at(rest, from, i);
                assert(s.subrange(i + 1, i + 1 + from.len()) =~= rest.subrange(i, i + from.len()));
                assert(occurs_at(s, from, i + 1));
            }
        }
        law_replacing(rest, from, to);
        assert(seq![s[0]] + rest =~= s);
    }
    let all = from + s;
    assert(all.take(from.len() as int) =~= from);
    assert(all.skip(from.len() as int) =~= s);
}

} // verus!
