//! Content digests: the SHA-1 hash of a byte sequence, written as forty
//! lowercase hexadecimal characters.

use sha1::{Digest, Sha1};
use vstd::prelude::*;

verus! {

/// The twenty bytes that SHA-1 assigns to `content`.
pub uninterp spec fn sha1_of(content: Seq<u8>) -> Seq<u8>;

/// The sixteen lowercase hexadecimal digits, in order of value.
pub open spec fn hex_digits() -> Seq<char> {
    seq!['0', '1', '2', '3', '4', '5', '6', '7', '8', '9', 'a', 'b', 'c', 'd', 'e', 'f']
}

/// The two characters that stand for one byte: high nibble first.
pub open spec fn hex_pair(b: u8) -> Seq<char> {
    seq![hex_digits()[b as int / 16], hex_digits()[b as int % 16]]
}

/// The hexadecimal text of a byte sequence, two characters per byte.
pub open spec fn hex_of(bytes: Seq<u8>) -> Seq<char>
    decreases bytes.len(),
{
    if bytes.len() == 0 {
        Seq::empty()
    } else {
        hex_of(bytes.drop_last()) + hex_pair(bytes.last())
    }
}

/// The digest of `content` as a mathematical value.
pub open spec fn digest_of(content: Seq<u8>) -> Seq<char> {
    hex_of(sha1_of(content))
}

/// Whether `c` is one of `0`-`9`, `a`-`f`.
pub open spec fn is_hex_char(c: char) -> bool {
    ('0' <= c && c <= '9') || ('a' <= c && c <= 'f')
}

/// Hexadecimal text has two characters per byte, each a lowercase digit.
pub proof fn lemma_hex_of_shape(bytes: Seq<u8>)
    ensures
        hex_of(bytes).len() == 2 * bytes.len(),
        forall|i: int| 0 <= i < hex_of(bytes).len() ==> is_hex_char(#[trigger] hex_of(bytes)[i]),
    decreases bytes.len(),
{
    if bytes.len() > 0 {
        lemma_hex_of_shape(bytes.drop_last());
        let b = bytes.last();
        assert(0 <= b as int / 16 < 16 && 0 <= b as int % 16 < 16);
        assert(forall|k: int| 0 <= k < 16 ==> is_hex_char(#[trigger] hex_digits()[k]));
        assert(is_hex_char(hex_pair(b)[0]));
        assert(is_hex_char(hex_pair(b)[1]));
    }
}

/// Calls `Sha1::new`, `Digest::update` and `Digest::finalize` of the `sha1`
/// crate on the whole buffer. Trusted: the output is the SHA-1 hash of the
/// buffer's bytes, a function of those bytes alone, and is twenty bytes long.
#[verifier::external_body]
fn sha1_raw(buf: &Vec<u8>) -> (out: Vec<u8>)
    ensures
        out@ == sha1_of(buf@),
        out@.len() == 20,
{
    let mut hasher = Sha1::new();
    hasher.update(buf);
    hasher.finalize().to_vec()
}

/// Calls `String::push`. Trusted: the character is appended at the end and
/// nothing else changes.
#[verifier::external_body]
fn push_char(s: &mut String, c: char)
    ensures
        final(s)@ == old(s)@.push(c),
{
    s.push(c);
}

/// Writes `bytes` as lowercase hexadecimal text, high nibble first.
pub fn to_hex(bytes: &Vec<u8>) -> (text: String)
    ensures
        text@ == hex_of(bytes@),
        text@.len() == 2 * bytes@.len(),
        forall|i: int| 0 <= i < text@.len() ==> is_hex_char(#[trigger] text@[i]),
{
    let digits: [char; 16] = [
        '0', '1', '2', '3', '4', '5', '6', '7', '8', '9', 'a', 'b', 'c', 'd', 'e', 'f',
    ];
    let mut text = String::new();
    let mut i: usize = 0;
    while i < bytes.len()
        invariant
            i <= bytes.len(),
            digits@ == hex_digits(),
            text@ == hex_of(bytes@.take(i as int)),
        decreases bytes.len() - i,
    {
        let b: u8 = bytes[i];
        let hi: usize = (b / 16) as usize;
        let lo: usize = (b % 16) as usize;
        proof {
            let next = bytes@.take(i + 1);
            assert(next.drop_last() == bytes@.take(i as int));
            assert(next.last() == b);
            assert(hex_of(bytes@.take(i as int)).push(digits@[hi as int]).push(digits@[lo as int])
                == hex_of(bytes@.take(i as int)) + hex_pair(b));
        }
        push_char(&mut text, digits[hi]);
        push_char(&mut text, digits[lo]);
        i += 1;
    }
    proof {
        assert(bytes@.take(i as int) == bytes@);
        lemma_hex_of_shape(bytes@);
    }
    text
}

/// The digest of `buf`: its SHA-1 hash as forty lowercase hexadecimal
/// characters. It depends on the bytes alone.
pub fn get_sha1(buf: &Vec<u8>) -> (hash: String)
    ensures
        hash@ == digest_of(buf@),
        hash@.len() == 40,
        forall|i: int| 0 <= i < 40 ==> is_hex_char(#[trigger] hash@[i]),
{
    let raw = sha1_raw(buf);
    to_hex(&raw)
}

} // verus!
