//! A fixed-size string buffer that lives on the stack.

use crate::scan;
use crate::scan::{DOT, MINUS, ZERO};
use crate::text;
use crate::text::as_text;
use vstd::prelude::*;
use vstd::slice::slice_subrange;
use vstd::string::*;
use vstd::utf8::*;

verus! {

/// What is left of `s` in a space of `n` bytes.
pub open spec fn clip(s: Seq<u8>, n: nat) -> Seq<u8> {
    if s.len() <= n {
        s
    } else {
        s.take(n as int)
    }
}

/// The decimal digits of `n` in ASCII, without leading zeros.
pub open spec fn decimal(n: nat) -> Seq<u8>
    decreases n,
{
    if n < 10 {
        seq![(ZERO + n) as u8]
    } else {
        decimal(n / 10).push((ZERO + n % 10) as u8)
    }
}

/// A number of hundredths as a decimal fraction with two places.
pub open spec fn decimal_2dp(hundredths: nat) -> Seq<u8> {
    decimal(hundredths / 100) + seq![
        DOT,
        (ZERO + hundredths / 10 % 10) as u8,
        (ZERO + hundredths % 10) as u8,
    ]
}

/// A string of at most `N` bytes. What does not fit is dropped.
#[derive(Clone, Copy)]
pub struct Buf<const N: usize> {
    data: [u8; N],
    len: usize,
}

impl<const N: usize> View for Buf<N> {
    type V = Seq<u8>;

    closed spec fn view(&self) -> Seq<u8> {
        self.data@.subrange(0, self.len as int)
    }
}

impl<const N: usize> Buf<N> {
    #[verifier::type_invariant]
    spec fn inv(self) -> bool {
        self.len <= N
    }

    /// The characters that the buffer shows.
    pub open spec fn text(&self) -> Seq<char> {
        text::decoded(self@)
    }

    /// An empty buffer.
    pub fn new() -> (b: Self)
        ensures
            b@ == Seq::<u8>::empty(),
    {
        let b = Buf { data: [0u8; N], len: 0 };
        assert(b@ =~= Seq::<u8>::empty());
        b
    }

    /// The number of bytes in the buffer.
    pub fn len(&self) -> (n: usize)
        ensures
            n == self@.len(),
            n <= N,
    {
        proof {
            use_type_invariant(self);
        }
        self.len
    }

    pub fn is_empty(&self) -> (b: bool)
        ensures
            b <==> self@.len() == 0,
    {
        proof {
            use_type_invariant(self);
        }
        self.len == 0
    }

    /// Appends one byte where there is room for it.
    pub fn push_byte(&mut self, b: u8)
        ensures
            final(self)@ == clip(old(self)@ + seq![b], N as nat),
    {
        proof {
            use_type_invariant(&*self);
        }
        if self.len < N {
            self.data[self.len] = b;
            self.len = self.len + 1;
            assert(self@ =~= old(self)@ + seq![b]);
        } else {
            assert((old(self)@ + seq![b]).take(N as int) =~= old(self)@);
        }
    }

    /// Appends as much of `s` as there is room for.
    pub fn push_bytes(&mut self, s: &[u8])
        ensures
            final(self)@ == clip(old(self)@ + s@, N as nat),
    {
        proof {
            use_type_invariant(&*self);
        }
        let room: usize = N - self.len;
        let n: usize = if s.len() < room { s.len() } else { room };
        let mut i: usize = 0;
        assert(s@.take(0) =~= Seq::<u8>::empty());
        assert(old(self)@ + s@.take(0) =~= old(self)@);
        while i < n
            invariant
                i <= n <= s.len(),
                self@ == old(self)@ + s@.take(i as int),
                self@.len() + n - i <= N,
            decreases n - i,
        {
            let ghost before = self@;
            self.push_byte(s[i]);
            assert(before + seq![s@[i as int]] =~= old(self)@ + s@.take(i + 1));
            i = i + 1;
        }
        assert(clip(old(self)@ + s@, N as nat) =~= old(self)@ + s@.take(n as int));
    }

    /// Appends as much of the UTF-8 bytes of `s` as there is room for.
    pub fn push_str(&mut self, s: &str)
        ensures
            final(self)@ == clip(old(self)@ + encode_utf8(s@), N as nat),
    {
        self.push_bytes(s.as_bytes());
    }

    /// Appends `n` in decimal.
    pub fn push_u64(&mut self, n: u64)
        ensures
            final(self)@ == clip(old(self)@ + decimal(n as nat), N as nat),
        decreases n,
    {
        let ghost before = old(self)@;
        let digit: u8 = ZERO + (n % 10) as u8;
        if n >= 10 {
            self.push_u64(n / 10);
            proof {
                lemma_clip_append(before + decimal((n / 10) as nat), seq![digit], N as nat);
            }
            assert(before + decimal((n / 10) as nat) + seq![digit] =~= before + decimal(n as nat));
        } else {
            proof {
                use_type_invariant(&*self);
            }
            assert(decimal(n as nat) =~= seq![digit]);
        }
        self.push_byte(digit);
    }

    /// Appends a number of hundredths as a decimal fraction with two places.
    pub fn push_2dp(&mut self, hundredths: u64)
        ensures
            final(self)@ == clip(old(self)@ + decimal_2dp(hundredths as nat), N as nat),
    {
        let ghost before = old(self)@;
        let tail: [u8; 3] = [
            DOT,
            ZERO + (hundredths / 10 % 10) as u8,
            ZERO + (hundredths % 10) as u8,
        ];
        self.push_u64(hundredths / 100);
        self.push_bytes(&tail);
        proof {
            let whole = decimal((hundredths / 100) as nat);
            lemma_clip_append(before + whole, tail@, N as nat);
            assert(before + whole + tail@ =~= before + decimal_2dp(hundredths as nat));
        }
    }

    /// The bytes of the buffer.
    pub fn as_bytes(&self) -> (s: &[u8])
        ensures
            s@ == self@,
    {
        proof {
            use_type_invariant(self);
        }
        slice_subrange(&self.data, 0, self.len)
    }

    /// The text of the buffer.
    pub fn as_str(&self) -> (s: &str)
        ensures
            s@ == self.text(),
    {
        as_text(self.as_bytes())
    }

    /// The number of characters in the text of the buffer.
    pub fn char_count(&self) -> (n: usize)
        ensures
            n == self.text().len(),
            n <= N,
    {
        proof {
            use_type_invariant(self);
            text::lemma_decoded_len(self@);
        }
        self.as_str().unicode_len()
    }
}

/// Dropping what does not fit loses nothing that a later append could still have kept.
pub broadcast proof fn lemma_clip_append(a: Seq<u8>, b: Seq<u8>, n: nat)
    ensures
        #[trigger] clip(clip(a, n) + b, n) == clip(a + b, n),
{
    assert(clip(clip(a, n) + b, n) =~= clip(a + b, n));
}

/// The decimal digits of a number are digits, and write that number.
pub proof fn lemma_decimal(n: nat)
    ensures
        decimal(n).len() > 0,
        scan::all_of(decimal(n), scan::digit()),
        scan::number(decimal(n)) == n,
    decreases n,
{
    let d = decimal(n);
    if n < 10 {
        assert(d.drop_last() =~= seq![]);
        assert(scan::number(seq![]) == 0);
    } else {
        lemma_decimal(n / 10);
        assert(d.drop_last() =~= decimal(n / 10));
        assert forall|i: int| 0 <= i < d.len() implies scan::digit()(#[trigger] d[i]) by {
            if i < d.len() - 1 {
                assert(scan::digit()(decimal(n / 10)[i]));
            }
        }
    }
}

/// What is written of a number is read as that number.
pub proof fn lemma_u64_round_trip(n: u64)
    ensures
        scan::u64_value(decimal(n as nat)) == n,
{
    lemma_decimal(n as nat);
    scan::lemma_first_run_digits(decimal(n as nat));
}

/// What is written of hundredths is read as these hundredths: a number without a sign, whose
/// two digits behind the point are the hundredths of a whole.
pub proof fn lemma_2dp_round_trip(h: nat)
    ensures
        ({
            let s = decimal_2dp(h);
            let frac = scan::frac_part(s).filter(scan::digit());
            &&& !scan::whole_part(s).contains(MINUS)
            &&& scan::number(scan::whole_part(s).filter(scan::digit())) == h / 100
            &&& frac.len() == 2
            &&& scan::number(frac) == h % 100
        }),
{
    let w = decimal(h / 100);
    let a = (ZERO + h / 10 % 10) as u8;
    let b = (ZERO + h % 10) as u8;
    let s = decimal_2dp(h);
    lemma_decimal(h / 100);
    assert forall|k: int| 0 <= k < w.len() implies scan::is_digit(#[trigger] s[k]) by {
        assert(scan::digit()(w[k]));
    }
    scan::lemma_first_of(s, scan::only(DOT), w.len() as int);
    lemma_no_end(s, 0);
    assert(scan::whole_part(s) =~= w);
    assert(scan::frac_part(s) =~= seq![DOT, a, b]);
    scan::lemma_filter_digits(w);
    assert(seq![DOT, a, b].filter(scan::digit()) =~= seq![a, b]) by {
        reveal_with_fuel(Seq::filter, 4);
        assert(seq![DOT, a, b].drop_last() =~= seq![DOT, a]);
        assert(seq![DOT, a].drop_last() =~= seq![DOT]);
        assert(seq![DOT].drop_last() =~= seq![]);
    }
    assert(scan::number(seq![a, b]) == h % 100) by {
        reveal_with_fuel(scan::number, 3);
        assert(seq![a, b].drop_last() =~= seq![a]);
        assert(seq![a].drop_last() =~= seq![]);
    }
    assert(!w.contains(MINUS)) by {
        if w.contains(MINUS) {
            let k = choose|k: int| 0 <= k < w.len() && w[k] == MINUS;
            assert(scan::digit()(w[k]));
        }
    }
}

/// Digits and points end no decimal number.
proof fn lemma_no_end(s: Seq<u8>, i: int)
    requires
        0 <= i <= s.len(),
        forall|k: int| 0 <= k < s.len() ==> scan::is_digit(#[trigger] s[k]) || s[k] == DOT,
    ensures
        scan::decimal_end(s, i) == s.len(),
    decreases s.len() - i,
{
    if i < s.len() {
        assert(scan::is_digit(s[i]) || s[i] == DOT);
        lemma_no_end(s, i + 1);
    }
}

} // verus!
