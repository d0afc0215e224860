//! What is pushed to a buffer, and what it shows.

use crate::buf;
use crate::buf::Buf;
use crate::laws::scan as chars;
use crate::scan;
use crate::text;
use crate::text::as_text;
use vstd::prelude::*;
use vstd::utf8::*;

verus! {

/// `after` is `before` with `s` behind it, as far as `n` bytes.
pub open spec fn grown(before: Seq<u8>, s: Seq<u8>, after: Seq<u8>, n: nat) -> bool {
    &&& before.len() + s.len() <= n ==> after == before + s
    &&& before.len() + s.len() > n ==> after == (before + s).take(n as int)
}

/// Bytes and strings are appended as far as there is room, and numbers as digits that write them.
pub proof fn law_push<const N: usize>(b: &mut Buf<N>, byte: u8, bytes: &[u8], s: &str, n: u64)
    ensures
        call_ensures(Buf::<N>::push_byte, (b, byte), ()) ==> grown(
            old(b)@,
            seq![byte],
            final(b)@,
            N as nat,
        ),
        call_ensures(Buf::<N>::push_bytes, (b, bytes), ()) ==> grown(
            old(b)@,
            bytes@,
            final(b)@,
            N as nat,
        ),
        call_ensures(Buf::<N>::push_str, (b, s), ()) ==> grown(
            old(b)@,
            encode_utf8(s@),
            final(b)@,
            N as nat,
        ),
        call_ensures(Buf::<N>::push_u64, (b, n), ()) ==> exists|d: Seq<u8>|
            #[trigger] chars::digits(d) && scan::number(d) == n && d.len() > 0 && (n > 0 ==> d[0]
                != '0' as u8) && grown(old(b)@, d, final(b)@, N as nat),
        call_ensures(Buf::<N>::push_2dp, (b, n), ()) ==> exists|w: Seq<u8>, f: Seq<u8>|
            {
                &&& #[trigger] chars::digits(w)
                &&& #[trigger] chars::digits(f)
                &&& w.len() > 0
                &&& f.len() == 2
                &&& scan::number(w) == n / 100
                &&& scan::number(f) == n % 100
                &&& grown(old(b)@, w + seq!['.' as u8] + f, final(b)@, N as nat)
            },
{
    chars::law_decimal(n as nat);
    chars::law_decimal_2dp(n as nat);
    let d = buf::decimal(n as nat);
    assert(chars::digits(d));
    let s2 = buf::decimal_2dp(n as nat);
    let k = s2.len() - 3;
    let w = s2.take(k);
    let f = s2.skip(k + 1);
    assert(chars::digits(w));
    assert(chars::digits(f));
    assert(s2 =~= w + seq!['.' as u8] + f);
}

/// A new buffer holds nothing, and its length and its bytes are those of what it holds.
pub proof fn law_contents<const N: usize>(
    b: &Buf<N>,
    fresh: Buf<N>,
    n: usize,
    e: bool,
    s: &[u8],
    t: &str,
    c: usize,
)
    ensures
        call_ensures(Buf::<N>::new, (), fresh) ==> fresh@.len() == 0,
        call_ensures(Buf::<N>::len, (b,), n) ==> n == b@.len() && n <= N,
        call_ensures(Buf::<N>::is_empty, (b,), e) ==> (e <==> b@.len() == 0),
        call_ensures(Buf::<N>::as_bytes, (b,), s) ==> s@ == b@,
        call_ensures(Buf::<N>::as_str, (b,), t) ==> t@ == text::decoded(b@),
        call_ensures(Buf::<N>::char_count, (b,), c) ==> c == text::decoded(b@).len(),
{
}

/// A call shows text in UTF-8 in full. Of other bytes it shows the text before the first of them
/// that begins no well-formed character.
pub proof fn law_text(bytes: &[u8], s: &str, shown: Seq<char>, rest: Seq<u8>)
    requires
        call_ensures(as_text, (bytes,), s),
        bytes@ == encode_utf8(shown) + rest,
        rest.len() > 0 ==> !valid_first_scalar(rest),
    ensures
        s@ == shown,
{
    law_decoded(shown, rest);
}

/// The text of bytes is what they encode, as far as they encode something.
pub proof fn law_decoded(shown: Seq<char>, rest: Seq<u8>)
    requires
        rest.len() > 0 ==> !valid_first_scalar(rest),
    ensures
        text::decoded(encode_utf8(shown) + rest) == shown,
    decreases shown.len(),
{
    let all = encode_utf8(shown) + rest;
    if shown.len() == 0 {
        assert(encode_utf8(shown) =~= seq![]);
        assert(all =~= rest);
    } else {
        let tail = shown.drop_first();
        let e = encode_scalar(shown[0] as u32);
        encode_utf8_first_scalar(shown);
        assert(encode_utf8(shown) == e + encode_utf8(tail));
        assert(pop_first_scalar(all) =~= encode_utf8(tail) + rest);
        law_decoded(tail, rest);
        char_u32_cast(shown[0], decode_first_scalar(all));
        assert(text::decoded(all) =~= shown);
    }
}

/// ASCII bytes show one character each.
pub proof fn law_ascii(s: Seq<u8>)
    requires
        forall|i: int| 0 <= i < s.len() ==> #[trigger] s[i] < 128,
    ensures
        text::decoded(s).len() == s.len(),
        forall|i: int| 0 <= i < s.len() ==> #[trigger] text::decoded(s)[i] as u8 == s[i],
        encode_utf8(text::decoded(s)) == s,
{
    let c = Seq::new(s.len(), |i: int| s[i] as char);
    assert forall|i: int| 0 <= i < c.len() implies #[trigger] c[i] as u8 == s[i] && (c[i] as u32)
        < 128 by {
        assert(s[i] < 128);
    }
    assert(is_ascii_chars(c));
    is_ascii_chars_encode_utf8(c);
    assert forall|i: int| 0 <= i < c.len() implies #[trigger] encode_utf8(c)[i] == s[i] by {
        assert(c[i] as u8 == encode_utf8(c)[i]);
    }
    assert(encode_utf8(c) =~= s);
    text::lemma_decoded_encoded(c);
}

} // verus!
