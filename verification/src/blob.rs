//! The stored form of a blob: the tag `blob `, the content's length in ASCII
//! decimal, one NUL byte, then the content itself.

use vstd::prelude::*;

verus! {

/// The ASCII decimal digits of `n`, most significant first, without leading
/// zeros.
pub open spec fn decimal(n: nat) -> Seq<u8>
    decreases n,
{
    if n < 10 {
        seq![(48 + n) as u8]
    } else {
        decimal(n / 10).push((48 + n % 10) as u8)
    }
}

/// The bytes of the tag `blob ` that opens every object.
pub open spec fn blob_tag() -> Seq<u8> {
    seq![98u8, 108u8, 111u8, 98u8, 32u8]
}

/// The header of a blob whose content has `len` bytes.
pub open spec fn blob_header(len: nat) -> Seq<u8> {
    blob_tag() + decimal(len) + seq![0u8]
}

/// The stored form of `content`.
pub open spec fn serialize(content: Seq<u8>) -> Seq<u8> {
    blob_header(content.len()) + content
}

/// What a stored form decodes to: the content it was made from, if any.
pub open spec fn decode(bytes: Seq<u8>) -> Option<Seq<u8>> {
    if exists|c: Seq<u8>| serialize(c) == bytes {
        Some(choose|c: Seq<u8>| serialize(c) == bytes)
    } else {
        None
    }
}

/// Decimal text is never empty and holds digits only.
pub proof fn lemma_decimal_digits(n: nat)
    ensures
        decimal(n).len() >= 1,
        forall|i: int| 0 <= i < decimal(n).len() ==> 48 <= #[trigger] decimal(n)[i] <= 57,
    decreases n,
{
    if n >= 10 {
        lemma_decimal_digits(n / 10);
    }
}

/// In a stored form the first NUL byte ends the header, and the content is
/// everything behind it.
pub proof fn lemma_header_end(content: Seq<u8>)
    ensures
        ({
            let h: int = (5 + decimal(content.len()).len()) as int;
            let s = serialize(content);
            &&& h < s.len()
            &&& s[h] == 0
            &&& forall|j: int| 0 <= j < h ==> #[trigger] s[j] != 0
            &&& s.skip(h + 1) == content
        }),
{
    let d = decimal(content.len());
    let h: int = (5 + d.len()) as int;
    let s = serialize(content);
    lemma_decimal_digits(content.len());
    assert forall|j: int| 0 <= j < h implies #[trigger] s[j] != 0 by {
        if j < 5 {
            assert(s[j] == blob_tag()[j]);
        } else {
            assert(s[j] == d[j - 5]);
        }
    }
    assert(s.skip(h + 1) =~= content);
}

/// Two contents with the same stored form are the same content.
pub proof fn lemma_serialize_injective(a: Seq<u8>, b: Seq<u8>)
    requires
        serialize(a) == serialize(b),
    ensures
        a == b,
{
    lemma_header_end(a);
    lemma_header_end(b);
    let ha: int = (5 + decimal(a.len()).len()) as int;
    let hb: int = (5 + decimal(b.len()).len()) as int;
    let s = serialize(a);
    if ha < hb {
        assert(s[ha] == 0);
    } else if hb < ha {
        assert(s[hb] == 0);
    }
}

/// Decoding the stored form of any content gives that content back.
pub proof fn lemma_round_trip(content: Seq<u8>)
    ensures
        decode(serialize(content)) == Some(content),
{
    let bytes = serialize(content);
    let c = choose|c: Seq<u8>| serialize(c) == bytes;
    lemma_serialize_injective(c, content);
}

fn push_decimal(out: &mut Vec<u8>, n: usize)
    ensures
        final(out)@ == old(out)@ + decimal(n as nat),
    decreases n,
{
    if n >= 10 {
        push_decimal(out, n / 10);
    }
    let digit: u8 = (n % 10) as u8;
    out.push(48 + digit);
    proof {
        if n < 10 {
            assert(final(out)@ =~= old(out)@ + decimal(n as nat));
        } else {
            assert(final(out)@ =~= old(out)@ + decimal(n as nat));
        }
    }
}

/// Builds the stored form of `content`.
pub fn encode_blob(content: &Vec<u8>) -> (bytes: Vec<u8>)
    ensures
        bytes@ == serialize(content@),
{
    let mut bytes: Vec<u8> = Vec::new();
    bytes.push(98);
    bytes.push(108);
    bytes.push(111);
    bytes.push(98);
    bytes.push(32);
    assert(bytes@ =~= blob_tag());
    push_decimal(&mut bytes, content.len());
    bytes.push(0);
    assert(bytes@ =~= blob_header(content@.len()));
    let mut i: usize = 0;
    while i < content.len()
        invariant
            i <= content.len(),
            bytes@ == blob_header(content@.len()) + content@.take(i as int),
        decreases content.len() - i,
    {
        bytes.push(content[i]);
        proof {
            assert(content@.take(i + 1) =~= content@.take(i as int).push(content@[i as int]));
            assert(bytes@ =~= blob_header(content@.len()) + content@.take(i + 1));
        }
        i += 1;
    }
    assert(content@.take(i as int) == content@);
    bytes
}

/// Whether two byte vectors hold the same bytes.
pub fn bytes_equal(a: &Vec<u8>, b: &Vec<u8>) -> (same: bool)
    ensures
        same == (a@ == b@),
{
    if a.len() != b.len() {
        return false;
    }
    let mut i: usize = 0;
    while i < a.len()
        invariant
            i <= a.len(),
            a.len() == b.len(),
            a@.take(i as int) == b@.take(i as int),
        decreases a.len() - i,
    {
        if a[i] != b[i] {
            return false;
        }
        proof {
            assert(a@.take(i + 1) =~= a@.take(i as int).push(a@[i as int]));
            assert(b@.take(i + 1) =~= b@.take(i as int).push(b@[i as int]));
        }
        i += 1;
    }
    proof {
        assert(a@.take(i as int) == a@);
        assert(b@.take(i as int) == b@);
    }
    true
}

/// Recovers the content from a stored form: `None` exactly when `bytes` is
/// the stored form of no content.
pub fn decode_blob(bytes: &Vec<u8>) -> (content: Option<Vec<u8>>)
    ensures
        match content {
            Some(c) => decode(bytes@) == Some(c@),
            None => decode(bytes@) is None,
        },
{
    let mut i: usize = 0;
    while i < bytes.len() && bytes[i] != 0
        invariant
            i <= bytes.len(),
            forall|j: int| 0 <= j < i ==> #[trigger] bytes@[j] != 0,
        decreases bytes.len() - i,
    {
        i += 1;
    }
    if i >= bytes.len() {
        proof {
            assert forall|c: Seq<u8>| serialize(c) != bytes@ by {
                lemma_header_end(c);
            }
        }
        return None;
    }
    let mut found: Vec<u8> = Vec::new();
    let mut k: usize = i + 1;
    while k < bytes.len()
        invariant
            i < k <= bytes.len(),
            found@ == bytes@.subrange(i + 1, k as int),
        decreases bytes.len() - k,
    {
        found.push(bytes[k]);
        proof {
            assert(found@ =~= bytes@.subrange(i + 1, k + 1));
        }
        k += 1;
    }
    assert(found@ =~= bytes@.skip(i + 1));
    let again = encode_blob(&found);
    let same = bytes_equal(&again, bytes);
    proof {
        assert forall|c: Seq<u8>| serialize(c) == bytes@ implies c == found@ by {
            lemma_header_end(c);
            let h: int = (5 + decimal(c.len()).len()) as int;
            if h < i {
                assert(bytes@[h] == 0);
            } else if i < h {
                assert(bytes@[i as int] == 0);
            }
        }
        if same {
            lemma_round_trip(found@);
        }
    }
    if same {
        Some(found)
    } else {
        None
    }
}

} // verus!
