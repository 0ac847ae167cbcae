//! Reading bytes as UTF-8.
use vstd::prelude::*;
use vstd::utf8::*;

verus! {

/// How many bytes from the start form valid UTF-8 before the first sequence
/// that does not decode.
pub open spec fn valid_prefix_len(b: Seq<u8>) -> nat
    decreases b.len(),
{
    if b.len() == 0 {
        0
    } else if valid_first_scalar(b) {
        proof {
            lemma_first_scalar_bounds(b);
        }
        (length_of_first_scalar(b) + valid_prefix_len(pop_first_scalar(b))) as nat
    } else {
        0
    }
}

pub proof fn lemma_first_scalar_bounds(b: Seq<u8>)
    requires
        valid_first_scalar(b),
    ensures
        1 <= length_of_first_scalar(b) <= b.len(),
        pop_first_scalar(b).len() < b.len(),
{
}

/// The prefix of that length is the longest prefix that is valid UTF-8.
pub proof fn lemma_valid_prefix_len_is_longest(b: Seq<u8>)
    ensures
        valid_prefix_len(b) <= b.len(),
        valid_utf8(b.take(valid_prefix_len(b) as int)),
        forall|j: int| valid_prefix_len(b) < j <= b.len() ==> !valid_utf8(#[trigger] b.take(j)),
    decreases b.len(),
{
    if b.len() == 0 {
        assert(b.take(0) =~= Seq::<u8>::empty());
    } else if valid_first_scalar(b) {
        let k = length_of_first_scalar(b);
        let rest = pop_first_scalar(b);
        lemma_valid_prefix_len_is_longest(rest);
        let r = valid_prefix_len(rest);
        // the valid prefix is the first scalar followed by the rest's prefix
        assert(b.take(k) + rest.take(r as int) =~= b.take(k + r));
        reveal_with_fuel(valid_utf8, 2);
        assert(valid_first_scalar(b.take(k)));
        assert(pop_first_scalar(b.take(k)) =~= Seq::<u8>::empty());
        assert(valid_utf8(b.take(k)));
        valid_utf8_concat(b.take(k), rest.take(r as int));
        assert forall|j: int| k + r < j <= b.len() implies !valid_utf8(#[trigger] b.take(j)) by {
            let p = b.take(j);
            assert(valid_first_scalar(p)) by {
                assert(p[0] == b[0]);
                if k >= 2 { assert(p[1] == b[1]); }
                if k >= 3 { assert(p[2] == b[2]); }
                if k >= 4 { assert(p[3] == b[3]); }
            }
            assert(pop_first_scalar(p) =~= rest.take(j - k));
            assert(!valid_utf8(rest.take(j - k)));
        }
    } else {
        assert(b.take(0) =~= Seq::<u8>::empty());
        assert forall|j: int| 0 < j <= b.len() implies !valid_utf8(#[trigger] b.take(j)) by {
            let p = b.take(j);
            if valid_first_scalar(p) {
                assert(p[0] == b[0]);
                assert(valid_first_scalar(b)) by {
                    let k = length_of_first_scalar(p);
                    if k >= 2 { assert(p[1] == b[1]); }
                    if k >= 3 { assert(p[2] == b[2]); }
                    if k >= 4 { assert(p[3] == b[3]); }
                }
            }
        }
    }
}

/// The length of the scalar encoded at `i`, where a valid one begins there.
fn scalar_at(b: &[u8], i: usize) -> (r: Option<usize>)
    requires
        i < b.len(),
    ensures
        r is Some <==> valid_first_scalar(b@.skip(i as int)),
        r matches Some(k) ==> k == length_of_first_scalar(b@.skip(i as int)),
{
    let ghost s = b@.skip(i as int);
    let n = b.len() - i;
    let b0 = b[i];
    if b0 <= 0x7f {
        return Some(1);
    }
    if 0xc0 <= b0 && b0 <= 0xdf {
        if n < 2 {
            return None;
        }
        let b1 = b[i + 1];
        if !(0x80 <= b1 && b1 <= 0xbf) {
            return None;
        }
        let cp: u32 = (((b0 & 0x1F) as u32) << 6) | ((b1 & 0x3f) as u32);
        assert(cp == decode_first_codepoint(s));
        assert((((b0 & 0x1F) as u32) << 6) | ((b1 & 0x3f) as u32) <= 0x7ff) by (bit_vector);
        if 0x80 <= cp { return Some(2); } else { return None; }
    }
    if 0xe0 <= b0 && b0 <= 0xef {
        if n < 3 {
            return None;
        }
        let b1 = b[i + 1];
        let b2 = b[i + 2];
        if !(0x80 <= b1 && b1 <= 0xbf && 0x80 <= b2 && b2 <= 0xbf) {
            return None;
        }
        let cp: u32 = (((b0 & 0x0F) as u32) << 12) | (((b1 & 0x3f) as u32) << 6) | ((b2 & 0x3f) as u32);
        assert(cp == decode_first_codepoint(s));
        if 0x800 <= cp && !(0xD800 <= cp && cp <= 0xDFFF) { return Some(3); } else { return None; }
    }
    if 0xf0 <= b0 && b0 <= 0xf7 {
        if n < 4 {
            return None;
        }
        let b1 = b[i + 1];
        let b2 = b[i + 2];
        let b3 = b[i + 3];
        if !(0x80 <= b1 && b1 <= 0xbf && 0x80 <= b2 && b2 <= 0xbf && 0x80 <= b3 && b3 <= 0xbf) {
            return None;
        }
        let cp: u32 = (((b0 & 0x07) as u32) << 18) | (((b1 & 0x3f) as u32) << 12) | (((b2 & 0x3f) as u32) << 6) | ((b3 & 0x3f) as u32);
        assert(cp == decode_first_codepoint(s));
        if 0x10000 <= cp && cp <= 0x10ffff && !(0xD800 <= cp && cp <= 0xDFFF) { return Some(4); } else { return None; }
    }
    None
}

/// The longest prefix of the bytes that is valid UTF-8, as the offset of the
/// first byte past it.
pub fn valid_up_to(b: &[u8]) -> (r: usize)
    ensures
        r == valid_prefix_len(b@),
{
    let mut i: usize = 0;
    assert(b@.skip(0) =~= b@);
    while i < b.len()
        invariant
            i <= b.len(),
            valid_prefix_len(b@) == i + valid_prefix_len(b@.skip(i as int)),
        decreases b.len() - i,
    {
        match scalar_at(b, i) {
            Some(k) => {
                proof {
                    let s = b@.skip(i as int);
                    lemma_first_scalar_bounds(s);
                    assert(pop_first_scalar(s) =~= b@.skip(i + k));
                }
                i = i + k;
            },
            None => {
                return i;
            },
        }
    }
    i
}

/// The text the bytes encode, where they are valid UTF-8.
///
/// Calls `std::str::from_utf8`, which returns the string slice when the bytes
/// are valid UTF-8 and an error otherwise; the contract says the slice holds
/// the characters the bytes decode to, which is what a string slice is.
#[verifier::external_body]
pub fn utf8_text(b: &[u8]) -> (r: Option<&str>)
    ensures
        r is Some <==> valid_utf8(b@),
        r matches Some(s) ==> s@ == decode_utf8(b@),
{
    std::str::from_utf8(b).ok()
}


/// Decoding never gives more characters than there were bytes.
pub proof fn lemma_decode_len(b: Seq<u8>)
    requires
        valid_utf8(b),
    ensures
        decode_utf8(b).len() <= b.len(),
    decreases b.len(),
{
    if b.len() > 0 {
        lemma_first_scalar_bounds(b);
        lemma_decode_len(pop_first_scalar(b));
    }
}

/// The UTF-8 encoding of text that begins with an ASCII character begins
/// with that character's byte.
pub proof fn lemma_encode_first_ascii(text: Seq<char>)
    requires
        text.len() > 0,
        (text[0] as u32) < 0x80,
    ensures
        encode_utf8(text).len() > 0,
        encode_utf8(text)[0] == (text[0] as u32) as u8,
{
    let v = text[0] as u32;
    assert(v & 0x7F == v) by (bit_vector)
        requires
            v < 0x80,
    ;
    assert(has_width_1_encoding(v));
    assert(encode_scalar(v) =~= seq![leading_byte_width_1(v)]);
}


/// The UTF-8 encoding of a text begins with the bytes of a UTF-8 byte order
/// mark only where the text begins with the character U+FEFF.
pub proof fn lemma_encoded_mark(text: Seq<char>)
    requires
        text.len() > 0,
        encode_utf8(text).len() >= 3,
        encode_utf8(text)[0] == 0xEF,
        encode_utf8(text)[1] == 0xBB,
        encode_utf8(text)[2] == 0xBF,
    ensures
        text[0] as u32 == 0xFEFF,
{
    let b = encode_utf8(text);
    encode_utf8_first_scalar(text);
    let b0: u8 = 0xEF;
    let b1: u8 = 0xBB;
    let b2: u8 = 0xBF;
    assert(((b0 & 0x0F) as u32) << 12 | ((b1 & 0x3F) as u32) << 6 | ((b2 & 0x3F) as u32) == 0xFEFF) by (bit_vector)
        requires
            b0 == 0xEF && b1 == 0xBB && b2 == 0xBF,
    ;
    assert(decode_first_codepoint(b) == codepoint_width_3(b0, b1, b2));
}

/// The UTF-8 encoding of a text never begins with a byte that no UTF-8
/// sequence begins with.
pub proof fn lemma_encoded_not_utf16_mark(text: Seq<char>)
    requires
        text.len() > 0,
    ensures
        encode_utf8(text).len() > 0,
        encode_utf8(text)[0] != 0xFF,
        encode_utf8(text)[0] != 0xFE,
{
    encode_utf8_first_scalar(text);
    let b = encode_utf8(text);
}

} // verus!
