//! Content hashes.
use vstd::prelude::*;

verus! {

/// The BLAKE3 hash of a text's UTF-8 bytes, as 64 lower-case hexadecimal
/// digits.
pub uninterp spec fn blake3_hex(text: Seq<char>) -> Seq<char>;

/// `blake3::hash` followed by `Hash::to_hex`: the 32-byte hash of the text's
/// bytes, two hexadecimal digits per byte. Which digits they are is a function
/// of the text and is not said here.
#[verifier::external_body]
fn hex_digest(text: &str) -> (r: String)
    ensures
        r@ == blake3_hex(text@),
        r@.len() == 64,
{
    blake3::hash(text.as_bytes()).to_hex().to_string()
}

/// The first `n` hexadecimal digits of a text's hash.
pub open spec fn short_hash_of(text: Seq<char>, n: int) -> Seq<char> {
    blake3_hex(text).take(n)
}

/// The first `n` hexadecimal digits of a text's hash.
pub fn short_hash(text: &str, n: usize) -> (r: String)
    requires
        n <= 64,
    ensures
        r@ == short_hash_of(text@, n as int),
        r@.len() == n,
{
    let h = hex_digest(text);
    let r = h.as_str().substring_char(0, n).to_string();
    assert(r@ =~= blake3_hex(text@).take(n as int));
    r
}

/// A shorter form of a hash begins the longer ones.
pub proof fn law_short_hashes_begin_longer_ones(text: Seq<char>, m: int, n: int)
    requires
        0 <= m <= n <= blake3_hex(text).len(),
    ensures
        short_hash_of(text, m).len() == m,
        short_hash_of(text, n).take(m) == short_hash_of(text, m),
{
    assert(short_hash_of(text, n).take(m) =~= short_hash_of(text, m));
}

} // verus!
