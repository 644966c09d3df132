//! Texts addressed by byte offsets of their UTF-8 encoding.
use vstd::prelude::*;
use vstd::utf8::{encode_scalar, encode_utf8};

use crate::text::{from_chars, to_chars};

verus! {

/// How many bytes the first `i` characters take.
pub open spec fn byte_pos(s: Seq<char>, i: int) -> int {
    encode_utf8(s.take(i)).len() as int
}

/// Whether character `i` (or the end) stands at byte `b`.
pub open spec fn stands_at(s: Seq<char>, b: int, i: int) -> bool {
    0 <= i <= s.len() && byte_pos(s, i) == b
}

/// Whether a character, or the end, stands at byte `b`.
pub open spec fn is_boundary(s: Seq<char>, b: int) -> bool {
    exists|i: int| stands_at(s, b, i)
}

/// The character at byte `b`.
pub open spec fn char_at(s: Seq<char>, b: int) -> int {
    choose|i: int| stands_at(s, b, i)
}

/// The text from byte `a` up to byte `b`, where both are character boundaries
/// in that order.
pub open spec fn text_between(s: Seq<char>, a: int, b: int) -> Option<Seq<char>> {
    if is_boundary(s, a) && is_boundary(s, b) && char_at(s, a) <= char_at(s, b) {
        Some(s.subrange(char_at(s, a), char_at(s, b)))
    } else {
        None
    }
}

proof fn lemma_encode_push(s: Seq<char>, c: char)
    ensures
        encode_utf8(s.push(c)).len() == encode_utf8(s).len() + encode_scalar(c as u32).len(),
    decreases s.len(),
{
    if s.len() == 0 {
        reveal_with_fuel(encode_utf8, 2);
        assert(s.push(c).drop_first() =~= Seq::<char>::empty());
        assert(encode_utf8(s.push(c)) =~= encode_scalar(c as u32));
    } else {
        assert(s.push(c).drop_first() =~= s.drop_first().push(c));
        assert(s.push(c)[0] == s[0]);
        lemma_encode_push(s.drop_first(), c);
    }
}

proof fn lemma_byte_pos_step(s: Seq<char>, i: int)
    requires
        0 <= i < s.len(),
    ensures
        byte_pos(s, i + 1) == byte_pos(s, i) + encode_scalar(s[i] as u32).len(),
        1 <= encode_scalar(s[i] as u32).len() <= 4,
{
    assert(s.take(i + 1) =~= s.take(i).push(s[i]));
    lemma_encode_push(s.take(i), s[i]);
}

proof fn lemma_byte_pos_grows(s: Seq<char>, i: int, j: int)
    requires
        0 <= i <= j <= s.len(),
    ensures
        byte_pos(s, i) + (j - i) <= byte_pos(s, j),
    decreases j - i,
{
    if i < j {
        lemma_byte_pos_grows(s, i, j - 1);
        lemma_byte_pos_step(s, j - 1);
    }
}

proof fn lemma_char_at(s: Seq<char>, b: int, i: int)
    requires
        stands_at(s, b, i),
    ensures
        is_boundary(s, b),
        char_at(s, b) == i,
{
    let k = char_at(s, b);
    assert(stands_at(s, b, k));
    if k < i {
        lemma_byte_pos_grows(s, k, i);
    } else if i < k {
        lemma_byte_pos_grows(s, i, k);
    }
}

/// The text before a character boundary is there.
pub proof fn lemma_prefix_text(s: Seq<char>, b: int)
    requires
        is_boundary(s, b),
    ensures
        text_between(s, 0, b) is Some,
        encode_utf8(text_between(s, 0, b)->0).len() == b,
{
    assert(s.take(0) =~= Seq::<char>::empty());
    assert(stands_at(s, 0, 0));
    lemma_char_at(s, 0, 0);
    let i = char_at(s, b);
    assert(stands_at(s, b, i));
    assert(s.subrange(0, i) =~= s.take(i));
}

/// The text from a character boundary on is there, and takes the bytes from
/// there on.
pub proof fn lemma_suffix_text(s: Seq<char>, b: int)
    requires
        is_boundary(s, b),
    ensures
        text_between(s, b, encode_utf8(s).len() as int) is Some,
        encode_utf8(text_between(s, b, encode_utf8(s).len() as int)->0).len() == encode_utf8(
            s,
        ).len() - b,
{
    let n = encode_utf8(s).len() as int;
    let i = char_at(s, b);
    assert(stands_at(s, b, i));
    assert(s.take(s.len() as int) =~= s);
    assert(stands_at(s, n, s.len() as int));
    lemma_char_at(s, n, s.len() as int);
    assert(s.subrange(i, s.len() as int) =~= s.skip(i));
    assert(s.take(i) + s.skip(i) =~= s);
    lemma_encode_add(s.take(i), s.skip(i));
}

/// The text between two bytes is a stretch of the text.
pub proof fn lemma_text_is_a_stretch(s: Seq<char>, a: int, b: int)
    requires
        text_between(s, a, b) is Some,
    ensures
        exists|i: int, j: int|
            0 <= i <= j <= s.len() && text_between(s, a, b)->0 == #[trigger] s.subrange(i, j),
{
    let i = char_at(s, a);
    let j = char_at(s, b);
    assert(stands_at(s, a, i));
    assert(stands_at(s, b, j));
    assert(text_between(s, a, b)->0 == s.subrange(i, j));
}

/// The text between its first byte and its last is the text.
pub proof fn lemma_whole_text(s: Seq<char>)
    ensures
        is_boundary(s, 0),
        text_between(s, 0, encode_utf8(s).len() as int) == Some(s),
{
    let n = encode_utf8(s).len() as int;
    assert(s.take(0) =~= Seq::<char>::empty());
    assert(stands_at(s, 0, 0));
    lemma_char_at(s, 0, 0);
    assert(s.take(s.len() as int) =~= s);
    assert(stands_at(s, n, s.len() as int));
    lemma_char_at(s, n, s.len() as int);
    assert(s.subrange(0, s.len() as int) =~= s);
}

/// A text takes as many bytes as its parts together.
pub proof fn lemma_encode_add(a: Seq<char>, b: Seq<char>)
    ensures
        encode_utf8(a + b).len() == encode_utf8(a).len() + encode_utf8(b).len(),
    decreases a.len(),
{
    if a.len() == 0 {
        assert(a + b =~= b);
    } else {
        assert((a + b).drop_first() =~= a.drop_first() + b);
        assert((a + b)[0] == a[0]);
        lemma_encode_add(a.drop_first(), b);
    }
}

/// An ASCII text takes one byte per character.
pub proof fn lemma_ascii_size(s: Seq<char>)
    requires
        forall|i: int| 0 <= i < s.len() ==> (#[trigger] s[i] as u32) < 0x80,
    ensures
        encode_utf8(s).len() == s.len(),
    decreases s.len(),
{
    if s.len() > 0 {
        assert forall|i: int| 0 <= i < s.drop_first().len() implies (
        #[trigger] s.drop_first()[i] as u32) < 0x80 by {
            assert(s.drop_first()[i] == s[i + 1]);
        }
        lemma_ascii_size(s.drop_first());
        assert((s[0] as u32) < 0x80);
    }
}

/// The number of bytes of a character.
fn char_size(c: char) -> (r: usize)
    ensures
        r == encode_scalar(c as u32).len(),
{
    let n: u32 = c as u32;
    if n <= 0x7f {
        1
    } else if n <= 0x7ff {
        2
    } else if n <= 0xffff {
        3
    } else {
        4
    }
}

/// A text with the byte offset of each of its characters.
pub struct Source {
    pub chars: Vec<char>,
    pub starts: Vec<usize>,
}

impl Source {
    /// Whether the offsets are those of the characters.
    pub open spec fn wf(&self) -> bool {
        &&& self.starts@.len() == self.chars@.len() + 1
        &&& forall|i: int|
            0 <= i < self.starts@.len() ==> #[trigger] self.starts@[i] == byte_pos(self.chars@, i)
    }

    /// Indexes a text by bytes.
    pub fn new(text: &str) -> (r: Source)
        ensures
            r.wf(),
            r.chars@ == text@,
    {
        let chars = to_chars(text);
        let total: usize = text.as_bytes().len();
        let mut starts: Vec<usize> = Vec::new();
        let mut at: usize = 0;
        let mut i: usize = 0;
        starts.push(0);
        proof {
            assert(text@.take(0) =~= Seq::<char>::empty());
            assert(text@.take(text@.len() as int) =~= text@);
        }
        while i < chars.len()
            invariant
                i <= chars@.len(),
                chars@ == text@,
                total == byte_pos(text@, text@.len() as int),
                at == byte_pos(text@, i as int),
                starts@.len() == i + 1,
                forall|k: int| 0 <= k <= i ==> #[trigger] starts@[k] == byte_pos(text@, k),
            decreases chars@.len() - i,
        {
            proof {
                lemma_byte_pos_step(text@, i as int);
                lemma_byte_pos_grows(text@, i + 1, text@.len() as int);
            }
            at = at + char_size(chars[i]);
            starts.push(at);
            i += 1;
        }
        Source { chars, starts }
    }

    /// The character at byte `b`, if one, or the end, stands there.
    fn find(&self, b: usize) -> (r: Option<usize>)
        requires
            self.wf(),
        ensures
            match r {
                Some(i) => i <= self.chars@.len() && is_boundary(self.chars@, b as int) && char_at(
                    self.chars@,
                    b as int,
                ) == i,
                None => !is_boundary(self.chars@, b as int),
            },
    {
        let ghost s = self.chars@;
        let mut lo: usize = 0;
        let mut hi: usize = self.starts.len();
        while lo < hi
            invariant
                self.wf(),
                s == self.chars@,
                lo <= hi <= self.starts@.len(),
                forall|k: int| 0 <= k < lo ==> #[trigger] self.starts@[k] < b,
                forall|k: int| hi <= k < self.starts@.len() ==> #[trigger] self.starts@[k] > b,
            decreases hi - lo,
        {
            let mid: usize = lo + (hi - lo) / 2;
            let m: usize = self.starts[mid];
            if m == b {
                proof {
                    assert(stands_at(s, b as int, mid as int));
                    lemma_char_at(s, b as int, mid as int);
                }
                return Some(mid);
            }
            proof {
                assert(self.starts@[mid as int] == byte_pos(s, mid as int));
                assert forall|k: int| 0 <= k <= mid implies #[trigger] self.starts@[k] <= m by {
                    lemma_byte_pos_grows(s, k, mid as int);
                }
                assert forall|k: int|
                    mid <= k < self.starts@.len() implies #[trigger] self.starts@[k] >= m by {
                    lemma_byte_pos_grows(s, mid as int, k);
                }
            }
            if m < b {
                lo = mid + 1;
            } else {
                hi = mid;
            }
        }
        proof {
            if is_boundary(s, b as int) {
                let k = char_at(s, b as int);
                assert(stands_at(s, b as int, k));
                assert(self.starts@[k] == byte_pos(s, k));
            }
        }
        None
    }

    /// The text from byte `a` up to byte `b`.
    pub fn slice(&self, a: usize, b: usize) -> (r: Option<String>)
        requires
            self.wf(),
        ensures
            r.deep_view() == text_between(self.chars@, a as int, b as int),
    {
        match (self.find(a), self.find(b)) {
            (Some(i), Some(j)) => if i <= j {
                Some(from_chars(self.chars.as_slice(), i, j))
            } else {
                None
            },
            _ => None,
        }
    }
}

} // verus!
