//! Scanning of byte strings: lines, fields and numbers.

use vstd::prelude::*;
use vstd::slice::slice_subrange;
use vstd::utf8::*;

verus! {

pub const TAB: u8 = 9;

pub const LF: u8 = 10;

pub const CR: u8 = 13;

pub const SPACE: u8 = 32;

pub const QUOTE: u8 = 34;

pub const MINUS: u8 = 45;

pub const DOT: u8 = 46;

pub const SLASH: u8 = 47;

pub const ZERO: u8 = 48;

pub const NINE: u8 = 57;

pub const COLON: u8 = 58;

pub const EQUALS: u8 = 61;

/// A class of bytes.
pub type ByteClass = spec_fn(u8) -> bool;

/// The position of the first byte of a class, or the length where there is none.
pub open spec fn first_of(s: Seq<u8>, p: ByteClass) -> int
    decreases s.len(),
{
    if s.len() == 0 || p(s[0]) {
        0
    } else {
        1 + first_of(s.drop_first(), p)
    }
}

/// What is left after the leading bytes of a class.
pub open spec fn strip_front(s: Seq<u8>, p: ByteClass) -> Seq<u8>
    decreases s.len(),
{
    if s.len() > 0 && p(s[0]) {
        strip_front(s.drop_first(), p)
    } else {
        s
    }
}

/// What is left before the trailing bytes of a class.
pub open spec fn strip_back(s: Seq<u8>, p: ByteClass) -> Seq<u8>
    decreases s.len(),
{
    if s.len() > 0 && p(s.last()) {
        strip_back(s.drop_last(), p)
    } else {
        s
    }
}

/// The class of one byte.
pub open spec fn only(b: u8) -> ByteClass {
    |x: u8| x == b
}

/// The ASCII digits.
pub open spec fn is_digit(b: u8) -> bool {
    ZERO <= b <= NINE
}

/// The class of the digits.
pub open spec fn digit() -> ByteClass {
    |b: u8| is_digit(b)
}

/// The class of all bytes that are no digits.
pub open spec fn non_digit() -> ByteClass {
    |b: u8| !is_digit(b)
}

/// The class of blanks.
pub open spec fn blank() -> ByteClass {
    |b: u8| b == SPACE || b == TAB
}

/// The class of what stands before a value: blanks and double quotes.
pub open spec fn before_value() -> ByteClass {
    |b: u8| b == SPACE || b == TAB || b == QUOTE
}

/// The class of what stands after a value: blanks, double quotes and carriage returns.
pub open spec fn after_value() -> ByteClass {
    |b: u8| b == SPACE || b == TAB || b == QUOTE || b == CR
}

/// The pieces of `s` between separators. There is always at least one.
pub open spec fn split(s: Seq<u8>, sep: u8) -> Seq<Seq<u8>>
    decreases s.len(),
{
    let i = first_of(s, only(sep));
    if 0 <= i < s.len() {
        seq![s.take(i)] + split(s.skip(i + 1), sep)
    } else {
        seq![s]
    }
}

/// `s` begins with `k`.
pub open spec fn begins(s: Seq<u8>, k: Seq<u8>) -> bool {
    k.len() <= s.len() && s.take(k.len() as int) == k
}

/// `w` occurs in `s`.
pub open spec fn occurs(s: Seq<u8>, w: Seq<u8>) -> bool {
    exists|i: int| 0 <= i && i + w.len() <= s.len() && #[trigger] s.subrange(i, i + w.len()) == w
}

/// The number that a run of digits writes.
pub open spec fn number(digits: Seq<u8>) -> nat
    decreases digits.len(),
{
    if digits.len() == 0 {
        0
    } else {
        (number(digits.drop_last()) * 10 + (digits.last() - ZERO)) as nat
    }
}

/// The first run of digits in `s`.
pub open spec fn first_run(s: Seq<u8>) -> Seq<u8> {
    let t = strip_front(s, non_digit());
    t.take(first_of(t, non_digit()))
}

/// The number that the first run of digits in `s` writes, modulo 2 to the 64.
pub open spec fn u64_value(s: Seq<u8>) -> nat {
    number(first_run(s)) % 0x1_0000_0000_0000_0000
}

/// The value on a line `key<sep>value`: what follows the first separator, without the blanks
/// and quotes around it. The key must end where a separator or a blank stands, and an empty
/// value is none.
pub open spec fn line_val(line: Seq<u8>, key: Seq<u8>, sep: u8) -> Option<Seq<u8>> {
    if line.len() > key.len() && begins(line, key) && (line[key.len() as int] == sep || blank()(
        line[key.len() as int],
    )) && line.contains(sep) {
        let val = strip_back(
            strip_front(line.skip(first_of(line, only(sep)) + 1), before_value()),
            after_value(),
        );
        if val.len() > 0 {
            Some(val)
        } else {
            None
        }
    } else {
        None
    }
}

/// The value on the first line that has one.
pub open spec fn first_val(lines: Seq<Seq<u8>>, key: Seq<u8>, sep: u8) -> Option<Seq<u8>>
    decreases lines.len(),
{
    if lines.len() == 0 {
        None
    } else if line_val(lines[0], key, sep) is Some {
        line_val(lines[0], key, sep)
    } else {
        first_val(lines.drop_first(), key, sep)
    }
}

/// The value of `key` in a text of lines.
pub open spec fn value_of(content: Seq<u8>, key: Seq<u8>, sep: u8) -> Option<Seq<u8>> {
    first_val(split(content, LF), key, sep)
}

/// The bytes of a string literal.
pub open spec fn bytes(s: &str) -> Seq<u8> {
    encode_utf8(s@)
}

/// The only position with no byte of the class before it that has one or is the end.
pub proof fn lemma_first_of(s: Seq<u8>, p: ByteClass, i: int)
    requires
        0 <= i <= s.len(),
        forall|k: int| 0 <= k < i ==> !p(#[trigger] s[k]),
        i < s.len() ==> p(s[i]),
    ensures
        first_of(s, p) == i,
    decreases s.len(),
{
    if s.len() > 0 && !p(s[0]) {
        let t = s.drop_first();
        assert forall|k: int| 0 <= k < i - 1 implies !p(#[trigger] t[k]) by {
            assert(!p(s[k + 1]));
        }
        lemma_first_of(t, p, i - 1);
    }
}

/// Where `first_of` stands.
pub proof fn lemma_first_of_props(s: Seq<u8>, p: ByteClass)
    ensures
        0 <= first_of(s, p) <= s.len(),
        forall|k: int| 0 <= k < first_of(s, p) ==> !p(#[trigger] s[k]),
        first_of(s, p) < s.len() ==> p(s[first_of(s, p)]),
    decreases s.len(),
{
    if s.len() > 0 && !p(s[0]) {
        let t = s.drop_first();
        lemma_first_of_props(t, p);
        assert forall|k: int| 0 <= k < first_of(s, p) implies !p(#[trigger] s[k]) by {
            if k > 0 {
                assert(!p(t[k - 1]));
            }
        }
    }
}

/// Stripping ends at the first byte that is not of the class.
pub proof fn lemma_strip_front(s: Seq<u8>, p: ByteClass, i: int)
    requires
        0 <= i <= s.len(),
        forall|k: int| 0 <= k < i ==> p(#[trigger] s[k]),
        i < s.len() ==> !p(s[i]),
    ensures
        strip_front(s, p) == s.skip(i),
    decreases s.len(),
{
    if s.len() > 0 && p(s[0]) {
        let t = s.drop_first();
        assert forall|k: int| 0 <= k < i - 1 implies p(#[trigger] t[k]) by {
            assert(p(s[k + 1]));
        }
        lemma_strip_front(t, p, i - 1);
        assert(t.skip(i - 1) =~= s.skip(i));
    } else {
        assert(s.skip(0) =~= s);
    }
}

/// Stripping from the back ends at the last byte that is not of the class.
pub proof fn lemma_strip_back(s: Seq<u8>, p: ByteClass, i: int)
    requires
        0 <= i <= s.len(),
        forall|k: int| i <= k < s.len() ==> p(#[trigger] s[k]),
        i > 0 ==> !p(s[i - 1]),
    ensures
        strip_back(s, p) == s.take(i),
    decreases s.len(),
{
    if i < s.len() {
        let t = s.drop_last();
        assert forall|k: int| i <= k < t.len() implies p(#[trigger] t[k]) by {
            assert(p(s[k]));
        }
        lemma_strip_back(t, p, i);
        assert(t.take(i) =~= s.take(i));
    } else {
        assert(s.take(i) =~= s);
    }
}

/// The position of the first `b` at or after `from`, or the length where there is none.
pub fn find_byte(s: &[u8], from: usize, b: u8) -> (i: usize)
    requires
        from <= s.len(),
    ensures
        from <= i <= s.len(),
        i - from == first_of(s@.skip(from as int), only(b)),
{
    let mut i: usize = from;
    while i < s.len() && s[i] != b
        invariant
            from <= i <= s.len(),
            forall|k: int| from <= k < i ==> s@[k] != b,
        decreases s.len() - i,
    {
        i = i + 1;
    }
    proof {
        lemma_first_of(s@.skip(from as int), only(b), i - from);
    }
    i
}

/// Whether `s` begins with `k`.
pub fn starts_with(s: &[u8], k: &[u8]) -> (r: bool)
    ensures
        r == begins(s@, k@),
{
    if s.len() < k.len() {
        return false;
    }
    let mut i: usize = 0;
    while i < k.len()
        invariant
            i <= k.len() <= s.len(),
            forall|j: int| 0 <= j < i ==> s@[j] == k@[j],
        decreases k.len() - i,
    {
        if s[i] != k[i] {
            assert(s@.take(k@.len() as int)[i as int] != k@[i as int]);
            return false;
        }
        i = i + 1;
    }
    assert(s@.take(k@.len() as int) =~= k@);
    true
}

/// Whether two byte strings are the same.
pub fn same(a: &[u8], b: &[u8]) -> (r: bool)
    ensures
        r == (a@ == b@),
{
    let r: bool = a.len() == b.len() && starts_with(a, b);
    assert(a@.len() == b@.len() ==> a@.take(b@.len() as int) =~= a@);
    r
}

/// Whether `w` occurs in `s`.
pub fn contains(s: &[u8], w: &[u8]) -> (r: bool)
    ensures
        r == occurs(s@, w@),
{
    if s.len() < w.len() {
        return false;
    }
    let mut i: usize = 0;
    while i <= s.len() - w.len()
        invariant
            w.len() <= s.len(),
            i <= s.len() - w.len() + 1,
            forall|k: int| 0 <= k < i ==> #[trigger] s@.subrange(k, k + w@.len()) != w@,
        decreases s.len() - w.len() + 1 - i,
    {
        let window = slice_subrange(s, i, i + w.len());
        if same(window, w) {
            return true;
        }
        if i == s.len() - w.len() {
            return false;
        }
        i = i + 1;
    }
    false
}

/// The number that the first run of digits writes, modulo 2 to the 64, or 0 where there is
/// none.
pub fn parse_u64_b(s: &[u8]) -> (r: u64)
    ensures
        r == u64_value(s@),
{
    let mut at: usize = 0;
    while at < s.len() && !(ZERO <= s[at] && s[at] <= NINE)
        invariant
            at <= s.len(),
            forall|k: int| 0 <= k < at ==> !is_digit(#[trigger] s@[k]),
        decreases s.len() - at,
    {
        at = at + 1;
    }
    let ghost t = s@.skip(at as int);
    proof {
        lemma_strip_front(s@, non_digit(), at as int);
        assert(t.take(0) =~= seq![]);
    }
    let mut r: u64 = 0;
    let mut i: usize = at;
    while i < s.len() && ZERO <= s[i] && s[i] <= NINE
        invariant
            at <= i <= s.len(),
            t == s@.skip(at as int),
            forall|k: int| 0 <= k < i - at ==> is_digit(#[trigger] t[k]),
            r == number(t.take(i - at)) % 0x1_0000_0000_0000_0000,
        decreases s.len() - i,
    {
        let d: u8 = s[i] - ZERO;
        let ghost n = number(t.take(i - at));
        proof {
            assert(t.take(i - at + 1).drop_last() =~= t.take(i - at));
            assert(t.take(i - at + 1).last() == s@[i as int]);
            lemma_mod_step(n as int, d as int);
        }
        r = r.wrapping_mul(10).wrapping_add(d as u64);
        i = i + 1;
    }
    proof {
        lemma_first_of(t, non_digit(), i - at);
    }
    r
}

/// A digit can be appended to a remainder.
proof fn lemma_mod_step(n: int, d: int)
    requires
        n >= 0,
        0 <= d < 10,
    ensures
        (((n % 0x1_0000_0000_0000_0000) * 10) % 0x1_0000_0000_0000_0000 + d)
            % 0x1_0000_0000_0000_0000 == (n * 10 + d) % 0x1_0000_0000_0000_0000,
{
}

/// The pieces of a byte string between separators, one after the other.
pub struct Pieces<'a> {
    s: &'a [u8],
    sep: u8,
    pos: usize,
    done: bool,
}

impl<'a> View for Pieces<'a> {
    type V = Seq<Seq<u8>>;

    closed spec fn view(&self) -> Seq<Seq<u8>> {
        if self.done {
            seq![]
        } else {
            split(self.s@.skip(self.pos as int), self.sep)
        }
    }
}

impl<'a> Pieces<'a> {
    #[verifier::type_invariant]
    spec fn inv(self) -> bool {
        self.pos <= self.s@.len()
    }

    /// All pieces of `s`.
    pub fn new(s: &'a [u8], sep: u8) -> (p: Self)
        ensures
            p@ == split(s@, sep),
    {
        assert(s@.skip(0) =~= s@);
        Pieces { s, sep, pos: 0, done: false }
    }

    /// Takes the next piece.
    pub fn next(&mut self) -> (r: Option<&'a [u8]>)
        ensures
            r is Some <==> old(self)@.len() > 0,
            r matches Some(x) ==> x@ == old(self)@[0] && final(self)@ == old(self)@.drop_first(),
            r is None ==> final(self)@ == old(self)@,
    {
        proof {
            use_type_invariant(&*self);
        }
        if self.done {
            return None;
        }
        let ghost rest = self.s@.skip(self.pos as int);
        let end: usize = find_byte(self.s, self.pos, self.sep);
        let x = slice_subrange(self.s, self.pos, end);
        assert(x@ =~= rest.take(end - self.pos));
        if end < self.s.len() {
            assert(rest.skip(end - self.pos + 1) =~= self.s@.skip(end + 1));
            self.pos = end + 1;
        } else {
            assert(rest.take(end - self.pos) =~= rest);
            self.done = true;
        }
        assert(self@ =~= old(self)@.drop_first());
        Some(x)
    }
}

/// The value of `key` on the first line `key<sep>value` that has one.
pub fn find_val<'a>(content: &'a [u8], key: &[u8], sep: u8) -> (r: Option<&'a [u8]>)
    ensures
        r matches Some(v) ==> value_of(content@, key@, sep) == Some(v@),
        r is None ==> value_of(content@, key@, sep) is None,
{
    let mut lines = Pieces::new(content, LF);
    loop
        invariant
            value_of(content@, key@, sep) == first_val(lines@, key@, sep),
        decreases lines@.len(),
    {
        match lines.next() {
            Some(line) => {
                let found = find_line_val(line, key, sep);
                if found.is_some() {
                    return found;
                }
            },
            None => {
                return None;
            },
        }
    }
}

/// The value on one line.
fn find_line_val<'a>(line: &'a [u8], key: &[u8], sep: u8) -> (r: Option<&'a [u8]>)
    ensures
        r matches Some(v) ==> line_val(line@, key@, sep) == Some(v@),
        r is None ==> line_val(line@, key@, sep) is None,
{
    if line.len() <= key.len() || !starts_with(line, key) {
        return None;
    }
    let next: u8 = line[key.len()];
    if next != sep && next != TAB && next != SPACE {
        return None;
    }
    let at: usize = find_byte(line, 0, sep);
    proof {
        assert(line@.skip(0) =~= line@);
        lemma_first_of_props(line@, only(sep));
    }
    if at == line.len() {
        assert(!line@.contains(sep)) by {
            if line@.contains(sep) {
                let k = choose|k: int| 0 <= k < line@.len() && line@[k] == sep;
                assert(!only(sep)(line@[k]));
            }
        }
        return None;
    }
    assert(line@.contains(sep));
    let val = slice_subrange(line, at + 1, line.len());
    assert(val@ =~= line@.skip(at + 1));
    let mut start: usize = 0;
    while start < val.len() && (val[start] == SPACE || val[start] == TAB || val[start] == QUOTE)
        invariant
            start <= val.len(),
            forall|k: int| 0 <= k < start ==> before_value()(#[trigger] val@[k]),
        decreases val.len() - start,
    {
        start = start + 1;
    }
    proof {
        lemma_strip_front(val@, before_value(), start as int);
    }
    let mut end: usize = val.len();
    while end > start && (val[end - 1] == SPACE || val[end - 1] == TAB || val[end - 1] == QUOTE
        || val[end - 1] == CR)
        invariant
            start <= end <= val.len(),
            forall|k: int| end <= k < val.len() ==> after_value()(#[trigger] val@[k]),
        decreases end,
    {
        end = end - 1;
    }
    proof {
        let t = val@.skip(start as int);
        assert forall|k: int| end - start <= k < t.len() implies after_value()(#[trigger] t[k]) by {
            assert(after_value()(val@[k + start]));
        }
        lemma_strip_back(t, after_value(), end - start);
        assert(t.take(end - start) =~= val@.subrange(start as int, end as int));
    }
    if start < end {
        Some(slice_subrange(val, start, end))
    } else {
        None
    }
}

/// The length of a C string: what stands before the first null byte.
pub fn cstr_len(buf: &[u8]) -> (n: usize)
    ensures
        n == first_of(buf@, only(0)),
        n <= buf.len(),
{
    assert(buf@.skip(0) =~= buf@);
    find_byte(buf, 0, 0)
}

/// The `k`th piece of `s` between separators, or nothing where there are fewer.
pub open spec fn piece_of(s: Seq<u8>, sep: u8, k: int) -> Seq<u8> {
    if 0 <= k < split(s, sep).len() {
        split(s, sep)[k]
    } else {
        seq![]
    }
}

/// The `k`th piece between separators, or nothing where there are fewer.
pub fn piece<'a>(s: &'a [u8], sep: u8, k: usize) -> (r: &'a [u8])
    ensures
        r@ == piece_of(s@, sep, k as int),
{
    let ghost all = split(s@, sep);
    let mut pieces = Pieces::new(s, sep);
    let mut i: usize = 0;
    assert(all.skip(0) =~= all);
    loop
        invariant
            i <= k,
            all == split(s@, sep),
            i <= all.len(),
            pieces@ == all.skip(i as int),
        decreases k - i,
    {
        match pieces.next() {
            Some(x) => {
                if i == k {
                    return x;
                }
            },
            None => {
                let r = slice_subrange(s, 0, 0);
                assert(r@ =~= seq![]);
                return r;
            },
        }
        i = i + 1;
        assert(all.skip(i - 1).drop_first() =~= all.skip(i as int));
    }
}

/// The position of the decimal point in `s`, or the length where there is none.
pub open spec fn point(s: Seq<u8>) -> int {
    first_of(s, only(DOT))
}

/// Whether the byte at `i` ends a decimal number: a byte that has no part in it, behind the
/// point or behind a digit that is not zero. A minus has a part in the number before the point.
pub open spec fn ends_decimal(s: Seq<u8>, i: int) -> bool {
    &&& !is_digit(s[i])
    &&& s[i] != DOT
    &&& i > point(s) || (s[i] != MINUS && exists|k: int| 0 <= k < i && ZERO < #[trigger] s[k] <= NINE)
}

/// Where the decimal number that is looked for from `i` on ends.
pub open spec fn decimal_end(s: Seq<u8>, i: int) -> int
    decreases s.len() - i,
{
    if i >= s.len() || ends_decimal(s, i) {
        i
    } else {
        decimal_end(s, i + 1)
    }
}

/// The part of `s` that writes a decimal number before its point.
pub open spec fn whole_part(s: Seq<u8>) -> Seq<u8> {
    let end = decimal_end(s, 0);
    s.take(if point(s) < end { point(s) } else { end })
}

/// The part of `s` that writes a decimal number from its point on.
pub open spec fn frac_part(s: Seq<u8>) -> Seq<u8> {
    let end = decimal_end(s, 0);
    s.subrange(if point(s) < end { point(s) } else { end }, end)
}

/// The digits in a byte string, one after the other.
#[derive(Clone, Copy)]
pub struct Digits<'a> {
    rest: &'a [u8],
}

impl<'a> View for Digits<'a> {
    type V = Seq<u8>;

    closed spec fn view(&self) -> Seq<u8> {
        self.rest@.filter(digit())
    }
}

impl<'a> Digits<'a> {
    /// All digits in `s`.
    pub fn new(s: &'a [u8]) -> (d: Self)
        ensures
            d@ == s@.filter(digit()),
    {
        Digits { rest: s }
    }

    /// Takes the next digit, in ASCII.
    pub fn next(&mut self) -> (r: Option<u8>)
        ensures
            match r {
                Some(b) => old(self)@.len() > 0 && b == old(self)@[0] && final(self)@ == old(
                    self,
                )@.drop_first(),
                None => old(self)@.len() == 0 && final(self)@ == old(self)@,
            },
    {
        while self.rest.len() > 0
            invariant
                self@ == old(self)@,
            decreases self.rest@.len(),
        {
            let rest = self.rest;
            let b: u8 = rest[0];
            proof {
                lemma_filter_first(rest@);
            }
            self.rest = slice_subrange(rest, 1, rest.len());
            assert(self.rest@ =~= rest@.drop_first());
            if ZERO <= b && b <= NINE {
                assert(self@ =~= old(self)@.drop_first());
                return Some(b);
            }
            assert(self@ =~= old(self)@);
        }
        assert(self@.len() == 0) by {
            reveal(Seq::filter);
        }
        None
    }
}

/// The digits of a byte string are its first byte, if that is one, and the digits behind it.
proof fn lemma_filter_first(s: Seq<u8>)
    requires
        s.len() > 0,
    ensures
        s.filter(digit()) == (if is_digit(s[0]) {
            seq![s[0]]
        } else {
            seq![]
        }) + s.drop_first().filter(digit()),
{
    let first = seq![s[0]];
    Seq::filter_distributes_over_add(first, s.drop_first(), digit());
    assert(s =~= first + s.drop_first());
    assert(first.drop_last() =~= seq![]);
    reveal_with_fuel(Seq::filter, 2);
    assert(first.filter(digit()) =~= if is_digit(s[0]) { first } else { seq![] });
}

/// A decimal number as it is written: a sign, the digits before the point and those after it.
#[derive(Clone, Copy)]
pub struct Decimal<'a> {
    pub neg: bool,
    pub whole: Digits<'a>,
    pub frac: Digits<'a>,
}

impl<'a> Decimal<'a> {
    /// This is the decimal number that `s` writes.
    pub open spec fn reads(&self, s: Seq<u8>) -> bool {
        &&& self.neg == whole_part(s).contains(MINUS)
        &&& self.whole@ == whole_part(s).filter(digit())
        &&& self.frac@ == frac_part(s).filter(digit())
    }

    /// The decimal number that `s` writes.
    pub fn scan(s: &'a [u8]) -> (d: Decimal<'a>)
        ensures
            d.reads(s@),
    {
        let mut neg: bool = false;
        let mut past_point: bool = false;
        let mut nonzero: bool = false;
        let mut i: usize = 0;
        let mut cut: usize = 0;
        proof {
            lemma_first_of_props(s@, only(DOT));
        }
        while i < s.len()
            invariant
                i <= s.len(),
                0 <= point(s@) <= s@.len(),
                forall|k: int| 0 <= k < point(s@) ==> s@[k] != DOT,
                point(s@) < s@.len() ==> s@[point(s@)] == DOT,
                decimal_end(s@, 0) == decimal_end(s@, i as int),
                cut == (if past_point { point(s@) } else { i as int }),
                past_point <==> point(s@) < i,
                !past_point ==> (nonzero <==> exists|k: int| 0 <= k < i && ZERO < #[trigger] s@[k] <= NINE),
                neg == s@.take(cut as int).contains(MINUS),
            ensures
                i <= s.len(),
                decimal_end(s@, 0) == i,
                cut == (if point(s@) < i { point(s@) } else { i as int }),
                neg == s@.take(cut as int).contains(MINUS),
            decreases s.len() - i,
        {
            let b: u8 = s[i];
            let is_num: bool = ZERO <= b && b <= NINE;
            if !is_num && b != DOT && (past_point || (b != MINUS && nonzero)) {
                break ;
            }
            proof {
                assert(!ends_decimal(s@, i as int));
                assert(s@.take(i + 1) =~= s@.take(i as int).push(b));
            }
            if b == DOT {
                past_point = true;
            } else if b == MINUS {
                neg = true;
                assert(s@.take(i + 1)[i as int] == MINUS);
            } else if is_num && !past_point && b != ZERO {
                nonzero = true;
            }
            i = i + 1;
            if !past_point {
                cut = i;
            }
        }
        let whole = slice_subrange(s, 0, cut);
        let frac = slice_subrange(s, cut, i);
        assert(whole@ =~= whole_part(s@));
        assert(frac@ =~= frac_part(s@));
        Decimal { neg, whole: Digits::new(whole), frac: Digits::new(frac) }
    }
}

/// Pieces with a separator between each two.
pub open spec fn join(pieces: Seq<Seq<u8>>, sep: u8) -> Seq<u8>
    decreases pieces.len(),
{
    if pieces.len() == 0 {
        seq![]
    } else if pieces.len() == 1 {
        pieces[0]
    } else {
        pieces[0] + seq![sep] + join(pieces.drop_first(), sep)
    }
}

/// Splitting loses nothing: the pieces hold no separator, and joined they are what was split.
pub proof fn lemma_split_join(s: Seq<u8>, sep: u8)
    ensures
        split(s, sep).len() >= 1,
        join(split(s, sep), sep) == s,
        forall|i: int| 0 <= i < split(s, sep).len() ==> !(#[trigger] split(s, sep)[i]).contains(sep),
    decreases s.len(),
{
    let i = first_of(s, only(sep));
    let all = split(s, sep);
    lemma_first_of_props(s, only(sep));
    if i < s.len() {
        let rest = s.skip(i + 1);
        lemma_split_join(rest, sep);
        assert(all.drop_first() =~= split(rest, sep));
        assert(join(all, sep) =~= s);
        assert forall|k: int| 0 <= k < all.len() implies !(#[trigger] all[k]).contains(sep) by {
            if k == 0 {
                if all[0].contains(sep) {
                    let m = choose|m: int| 0 <= m < i && all[0][m] == sep;
                    assert(!only(sep)(s[m]));
                }
            } else {
                assert(all[k] == split(rest, sep)[k - 1]);
            }
        }
    } else {
        assert(!s.contains(sep)) by {
            if s.contains(sep) {
                let m = choose|m: int| 0 <= m < s.len() && s[m] == sep;
                assert(!only(sep)(s[m]));
            }
        }
    }
}

/// All bytes of `s` are of a class.
pub open spec fn all_of(s: Seq<u8>, p: ByteClass) -> bool {
    forall|i: int| 0 <= i < s.len() ==> p(#[trigger] s[i])
}

/// A line that is made of a key, blanks, the separator, and a value with blanks and quotes
/// around it has that value. This covers `key<TAB>: value`, `KEY=value` and `KEY="value"`.
pub proof fn lemma_line_val(
    key: Seq<u8>,
    pad: Seq<u8>,
    sep: u8,
    lead: Seq<u8>,
    val: Seq<u8>,
    trail: Seq<u8>,
)
    requires
        !key.contains(sep),
        !pad.contains(sep),
        all_of(pad, blank()),
        all_of(lead, before_value()),
        all_of(trail, after_value()),
        val.len() > 0,
        !before_value()(val[0]),
        !after_value()(val.last()),
    ensures
        line_val(key + pad + seq![sep] + lead + val + trail, key, sep) == Some(val),
{
    let line = key + pad + seq![sep] + lead + val + trail;
    let at = key.len() as int + pad.len();
    assert(line.take(key.len() as int) =~= key);
    assert(line[at] == sep);
    assert(line.contains(sep));
    assert(line[key.len() as int] == sep || blank()(line[key.len() as int])) by {
        if pad.len() > 0 {
            assert(blank()(pad[0]));
        }
    }
    assert forall|k: int| 0 <= k < at implies !only(sep)(#[trigger] line[k]) by {
        if k < key.len() {
            assert(key.contains(key[k]));
        } else {
            assert(pad.contains(pad[k - key.len()]));
        }
    }
    lemma_first_of(line, only(sep), at);
    let rest = line.skip(at + 1);
    assert(rest =~= lead + val + trail);
    assert forall|k: int| 0 <= k < lead.len() implies before_value()(#[trigger] rest[k]) by {
        assert(before_value()(lead[k]));
    }
    lemma_strip_front(rest, before_value(), lead.len() as int);
    let tail = rest.skip(lead.len() as int);
    assert(tail =~= val + trail);
    assert forall|k: int| val.len() <= k < tail.len() implies after_value()(#[trigger] tail[k]) by {
        assert(after_value()(trail[k - val.len()]));
    }
    lemma_strip_back(tail, after_value(), val.len() as int);
    assert(tail.take(val.len() as int) =~= val);
}

/// The first line that has a value of the key decides.
pub proof fn lemma_first_val(lines: Seq<Seq<u8>>, key: Seq<u8>, sep: u8, i: int)
    requires
        0 <= i < lines.len(),
        line_val(lines[i], key, sep) is Some,
        forall|k: int| 0 <= k < i ==> line_val(#[trigger] lines[k], key, sep) is None,
    ensures
        first_val(lines, key, sep) == line_val(lines[i], key, sep),
    decreases i,
{
    if i > 0 {
        let rest = lines.drop_first();
        assert(line_val(lines[0], key, sep) is None);
        assert forall|k: int| 0 <= k < i - 1 implies line_val(#[trigger] rest[k], key, sep) is None by {
            assert(line_val(lines[k + 1], key, sep) is None);
        }
        lemma_first_val(rest, key, sep, i - 1);
    }
}

/// Stripping from the front leaves the end.
proof fn lemma_strip_front_suffix(s: Seq<u8>, p: ByteClass)
    ensures
        exists|i: int| 0 <= i <= s.len() && #[trigger] s.skip(i) == strip_front(s, p),
        strip_front(s, p).len() > 0 ==> !p(strip_front(s, p)[0]),
    decreases s.len(),
{
    if s.len() > 0 && p(s[0]) {
        let t = s.drop_first();
        lemma_strip_front_suffix(t, p);
        let i = choose|i: int| 0 <= i <= t.len() && #[trigger] t.skip(i) == strip_front(t, p);
        assert(s.skip(i + 1) =~= t.skip(i));
    } else {
        assert(s.skip(0) =~= s);
    }
}

/// Stripping from the back leaves the start.
proof fn lemma_strip_back_prefix(s: Seq<u8>, p: ByteClass)
    ensures
        exists|i: int| 0 <= i <= s.len() && #[trigger] s.take(i) == strip_back(s, p),
        strip_back(s, p).len() > 0 ==> !p(strip_back(s, p).last()),
    decreases s.len(),
{
    if s.len() > 0 && p(s.last()) {
        let t = s.drop_last();
        lemma_strip_back_prefix(t, p);
        let i = choose|i: int| 0 <= i <= t.len() && #[trigger] t.take(i) == strip_back(t, p);
        assert(s.take(i) =~= t.take(i));
    } else {
        assert(s.take(s.len() as int) =~= s);
    }
}

/// A value that is found is trimmed: it is not empty, and begins and ends with no blank and no
/// quote. It stands on one line.
pub proof fn lemma_value_trimmed(content: Seq<u8>, key: Seq<u8>, sep: u8)
    requires
        value_of(content, key, sep) is Some,
    ensures
        ({
            let v = value_of(content, key, sep)->0;
            &&& v.len() > 0
            &&& !before_value()(v[0])
            &&& !after_value()(v.last())
            &&& !v.contains(LF)
        }),
{
    lemma_split_join(content, LF);
    lemma_first_val_trimmed(split(content, LF), key, sep);
}

proof fn lemma_first_val_trimmed(lines: Seq<Seq<u8>>, key: Seq<u8>, sep: u8)
    requires
        first_val(lines, key, sep) is Some,
        forall|i: int| 0 <= i < lines.len() ==> !(#[trigger] lines[i]).contains(LF),
    ensures
        ({
            let v = first_val(lines, key, sep)->0;
            &&& v.len() > 0
            &&& !before_value()(v[0])
            &&& !after_value()(v.last())
            &&& !v.contains(LF)
        }),
    decreases lines.len(),
{
    let line = lines[0];
    if line_val(line, key, sep) is Some {
        let v = line_val(line, key, sep)->0;
        let rest = line.skip(first_of(line, only(sep)) + 1);
        let tail = strip_front(rest, before_value());
        lemma_first_of_props(line, only(sep));
        assert(first_of(line, only(sep)) < line.len()) by {
            let k = choose|k: int| 0 <= k < line.len() && line[k] == sep;
            assert(only(sep)(line[k]));
        }
        lemma_strip_front_suffix(rest, before_value());
        lemma_strip_back_prefix(tail, after_value());
        let i = choose|i: int| 0 <= i <= rest.len() && #[trigger] rest.skip(i) == tail;
        let j = choose|j: int| 0 <= j <= tail.len() && #[trigger] tail.take(j) == v;
        if v.contains(LF) {
            let k = choose|k: int| 0 <= k < v.len() && v[k] == LF;
            assert(line[first_of(line, only(sep)) + 1 + i + k] == LF);
            assert(!lines[0].contains(LF));
        }
    } else {
        let more = lines.drop_first();
        assert forall|i: int| 0 <= i < more.len() implies !(#[trigger] more[i]).contains(LF) by {
            assert(!lines[i + 1].contains(LF));
        }
        lemma_first_val_trimmed(more, key, sep);
    }
}

/// A string of digits is the first run of digits in itself.
pub proof fn lemma_first_run_digits(s: Seq<u8>)
    requires
        all_of(s, digit()),
    ensures
        first_run(s) == s,
{
    assert forall|k: int| 0 <= k < s.len() implies !non_digit()(#[trigger] s[k]) by {
        assert(digit()(s[k]));
    }
    lemma_strip_front(s, non_digit(), 0);
    assert(s.skip(0) =~= s);
    lemma_first_of(s, non_digit(), s.len() as int);
    assert(s.take(s.len() as int) =~= s);
}

/// A string of digits keeps all of its digits.
pub proof fn lemma_filter_digits(s: Seq<u8>)
    requires
        all_of(s, digit()),
    ensures
        s.filter(digit()) == s,
    decreases s.len(),
{
    reveal(Seq::filter);
    if s.len() > 0 {
        let init = s.drop_last();
        assert forall|k: int| 0 <= k < init.len() implies digit()(#[trigger] init[k]) by {
            assert(digit()(s[k]));
        }
        lemma_filter_digits(init);
        assert(digit()(s[s.len() - 1]));
        assert(init.push(s.last()) =~= s);
    }
}

} // verus!
