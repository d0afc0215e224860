//! Byte strings and the UTF-8 text in them.

use vstd::prelude::*;
use vstd::slice::slice_subrange;
use vstd::utf8::*;

verus! {

/// The characters that a byte string shows: it is decoded up to the first byte that does not
/// begin a well-formed UTF-8 scalar.
pub open spec fn decoded(bytes: Seq<u8>) -> Seq<char>
    decreases bytes.len(),
{
    if bytes.len() > 0 && valid_first_scalar(bytes) {
        seq![decode_first_scalar(bytes) as char] + decoded(pop_first_scalar(bytes))
    } else {
        seq![]
    }
}

/// Where the well-formed text of a byte string ends at `n`, that prefix is what it shows.
proof fn lemma_decoded_prefix(bytes: Seq<u8>, n: int)
    requires
        0 <= n <= bytes.len(),
        valid_utf8(bytes.subrange(0, n)),
        n == bytes.len() || !valid_first_scalar(bytes.subrange(n, bytes.len() as int)),
    ensures
        decoded(bytes) == decode_utf8(bytes.subrange(0, n)),
    decreases n,
{
    let prefix = bytes.subrange(0, n);
    if n == 0 {
        assert(bytes.subrange(0, bytes.len() as int) == bytes);
    } else {
        let k = length_of_first_scalar(prefix);
        let rest = pop_first_scalar(bytes);
        assert(valid_first_scalar(prefix));
        assert(valid_first_scalar(bytes));
        assert(pop_first_scalar(prefix) == rest.subrange(0, n - k));
        assert(rest.subrange(n - k, rest.len() as int) == bytes.subrange(n, bytes.len() as int));
        lemma_decoded_prefix(rest, n - k);
    }
}

/// A byte string that is valid UTF-8 shows all of its characters.
pub proof fn lemma_decoded_valid(bytes: Seq<u8>)
    requires
        valid_utf8(bytes),
    ensures
        decoded(bytes) == decode_utf8(bytes),
{
    assert(bytes.subrange(0, bytes.len() as int) == bytes);
    lemma_decoded_prefix(bytes, bytes.len() as int);
}

/// What is encoded is what is shown.
pub proof fn lemma_decoded_encoded(chars: Seq<char>)
    ensures
        decoded(encode_utf8(chars)) == chars,
{
    encode_utf8_valid_utf8(chars);
    encode_utf8_decode_utf8(chars);
    lemma_decoded_valid(encode_utf8(chars));
}

/// No more characters are shown than there are bytes.
pub proof fn lemma_decoded_len(bytes: Seq<u8>)
    ensures
        decoded(bytes).len() <= bytes.len(),
    decreases bytes.len(),
{
    if bytes.len() > 0 && valid_first_scalar(bytes) {
        lemma_decoded_len(pop_first_scalar(bytes));
    }
}

/// `std::str::from_utf8`: the bytes as a string slice, which exists exactly when they are valid
/// UTF-8 and then has these bytes as its encoding.
#[verifier::external_body]
fn str_from_utf8(bytes: &[u8]) -> (r: Option<&str>)
    ensures
        r is Some <==> valid_utf8(bytes@),
        r matches Some(s) ==> encode_utf8(s@) == bytes@,
{
    std::str::from_utf8(bytes).ok()
}

/// The length of the scalar that begins at `i`, or 0 where no well-formed scalar begins there.
fn scalar_len(bytes: &[u8], i: usize) -> (n: usize)
    requires
        i < bytes.len(),
    ensures
        n > 0 <==> valid_first_scalar(bytes@.subrange(i as int, bytes@.len() as int)),
        n > 0 ==> n == length_of_first_scalar(bytes@.subrange(i as int, bytes@.len() as int)),
        i + n <= bytes.len(),
{
    let left: usize = bytes.len() - i;
    let b0: u8 = bytes[i];
    let ghost tail = bytes@.subrange(i as int, bytes@.len() as int);
    assert(tail[0] == b0);
    if b0 <= 0x7f {
        assert((b0 & 0x7f) as u32 <= 0x7f) by (bit_vector);
        return 1;
    }
    if left < 2 || b0 < 0xc0 || b0 > 0xf7 {
        return 0;
    }
    let b1: u8 = bytes[i + 1];
    assert(tail[1] == b1);
    if b1 < 0x80 || b1 > 0xbf {
        return 0;
    }
    if b0 <= 0xdf {
        let code: u32 = (((b0 & 0x1f) as u32) << 6) | ((b1 & 0x3f) as u32);
        assert(code == codepoint_width_2(b0, b1));
        assert(code < 0x800) by (bit_vector)
            requires
                code == (((b0 & 0x1f) as u32) << 6) | ((b1 & 0x3f) as u32),
        ;
        return if code >= 0x80 { 2 } else { 0 };
    }
    if left < 3 {
        return 0;
    }
    let b2: u8 = bytes[i + 2];
    assert(tail[2] == b2);
    if b2 < 0x80 || b2 > 0xbf {
        return 0;
    }
    if b0 <= 0xef {
        let code: u32 = (((b0 & 0x0f) as u32) << 12) | (((b1 & 0x3f) as u32) << 6) | ((b2
            & 0x3f) as u32);
        assert(code == codepoint_width_3(b0, b1, b2));
        return if code >= 0x800 && !(0xd800 <= code && code <= 0xdfff) { 3 } else { 0 };
    }
    if left < 4 {
        return 0;
    }
    let b3: u8 = bytes[i + 3];
    assert(tail[3] == b3);
    if b3 < 0x80 || b3 > 0xbf {
        return 0;
    }
    let code: u32 = (((b0 & 0x07) as u32) << 18) | (((b1 & 0x3f) as u32) << 12) | (((b2
        & 0x3f) as u32) << 6) | ((b3 & 0x3f) as u32);
    assert(code == codepoint_width_4(b0, b1, b2, b3));
    if 0x10000 <= code && code <= 0x10ffff { 4 } else { 0 }
}

/// The text of a byte string, up to the first byte that is not well-formed UTF-8.
pub fn as_text(bytes: &[u8]) -> (s: &str)
    ensures
        s@ == decoded(bytes@),
{
    let mut n: usize = 0;
    let mut more: bool = true;
    while n < bytes.len() && more
        invariant
            n <= bytes.len(),
            partial_valid_utf8(bytes@, n as int),
            !more ==> n < bytes.len() && !valid_first_scalar(
                bytes@.subrange(n as int, bytes@.len() as int),
            ),
        decreases (bytes.len() - n) + (if more { 1int } else { 0int }),
    {
        let k: usize = scalar_len(bytes, n);
        if k == 0 {
            more = false;
        } else {
            proof {
                partial_valid_utf8_extend(bytes@, n as int);
            }
            n = n + k;
        }
    }
    let prefix = slice_subrange(bytes, 0, n);
    proof {
        lemma_decoded_prefix(bytes@, n as int);
    }
    match str_from_utf8(prefix) {
        Some(s) => {
            proof {
                encode_utf8_decode_utf8(s@);
            }
            s
        },
        None => "",
    }
}

} // verus!
