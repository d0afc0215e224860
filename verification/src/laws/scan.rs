//! Numbers, values, pieces and words in byte strings.

use crate::buf;
use crate::scan;
use crate::scan::{
    contains, cstr_len, find_byte, find_val, parse_u64_b, piece, same, starts_with, Decimal, Digits,
    Pieces,
};
use crate::sys;
use vstd::arithmetic::power::*;
use vstd::prelude::*;

verus! {

/// All bytes are ASCII digits.
pub open spec fn digits(s: Seq<u8>) -> bool {
    forall|i: int| 0 <= i < s.len() ==> '0' as u8 <= #[trigger] s[i] <= '9' as u8
}

/// No byte is an ASCII digit.
pub open spec fn no_digits(s: Seq<u8>) -> bool {
    forall|i: int| 0 <= i < s.len() ==> !('0' as u8 <= #[trigger] s[i] <= '9' as u8)
}

/// No byte is `b`.
pub open spec fn without(s: Seq<u8>, b: u8) -> bool {
    forall|i: int| 0 <= i < s.len() ==> #[trigger] s[i] != b
}

/// A space or a tab.
pub open spec fn is_blank(b: u8) -> bool {
    b == ' ' as u8 || b == '\t' as u8
}

/// All bytes are spaces and tabs.
pub open spec fn blanks(s: Seq<u8>) -> bool {
    forall|i: int| 0 <= i < s.len() ==> is_blank(#[trigger] s[i])
}

/// The number that digits write has the weight of each digit from its place: one digit writes
/// itself, and digits before `b.len()` others weigh that many tens.
pub proof fn law_number(a: Seq<u8>, b: Seq<u8>, d: u8)
    requires
        digits(b),
        '0' as u8 <= d <= '9' as u8,
    ensures
        scan::number(a + b) == scan::number(a) * pow(10, b.len()) + scan::number(b),
        scan::number(seq![d]) == d - '0' as u8,
        scan::number(b) < pow(10, b.len()),
    decreases b.len(),
{
    reveal(pow);
    assert(seq![d].drop_last() =~= seq![]);
    assert(scan::number(seq![]) == 0);
    if b.len() == 0 {
        assert(a + b =~= a);
        assert(pow(10, 0) == 1);
    } else {
        let init = b.drop_last();
        assert forall|i: int| 0 <= i < init.len() implies '0' as u8 <= #[trigger] init[i]
            <= '9' as u8 by {
            assert('0' as u8 <= b[i] <= '9' as u8);
        }
        law_number(a, init, d);
        assert('0' as u8 <= b[b.len() - 1] <= '9' as u8);
        assert((a + b).drop_last() =~= a + init);
        assert(pow(10, b.len()) == 10 * pow(10, init.len()));
        let x = scan::number(a) as int;
        let p = pow(10, init.len());
        assert((x * p) * 10 == x * (10 * p)) by (nonlinear_arith);
    }
}

/// A number is written in digits that write it, without a leading zero.
pub proof fn law_decimal(n: nat)
    ensures
        digits(buf::decimal(n)),
        buf::decimal(n).len() > 0,
        scan::number(buf::decimal(n)) == n,
        n > 0 ==> buf::decimal(n)[0] != '0' as u8,
        n < 10 ==> buf::decimal(n).len() == 1,
        10 <= n < 100 ==> buf::decimal(n).len() == 2,
    decreases n,
{
    buf::lemma_decimal(n);
    let d = buf::decimal(n);
    assert forall|i: int| 0 <= i < d.len() implies '0' as u8 <= #[trigger] d[i] <= '9' as u8 by {
        assert(scan::digit()(d[i]));
    }
    if n >= 10 {
        law_decimal(n / 10);
        assert(d[0] == buf::decimal(n / 10)[0]);
    }
}

/// Hundredths are written as their wholes, a point, and two digits for the rest.
pub proof fn law_decimal_2dp(h: nat)
    ensures
        ({
            let s = buf::decimal_2dp(h);
            let n = s.len() - 3;
            &&& n > 0
            &&& digits(s.take(n))
            &&& scan::number(s.take(n)) == h / 100
            &&& h >= 100 ==> s[0] != '0' as u8
            &&& s[n] == '.' as u8
            &&& digits(s.skip(n + 1))
            &&& s.skip(n + 1).len() == 2
            &&& scan::number(s.skip(n + 1)) == h % 100
        }),
{
    let s = buf::decimal_2dp(h);
    let n = s.len() - 3;
    law_decimal(h / 100);
    assert(s.take(n) =~= buf::decimal(h / 100));
    let f = s.skip(n + 1);
    assert(f =~= seq![f[0], f[1]]);
    assert(f.drop_last() =~= seq![f[0]]);
    assert(seq![f[0]].drop_last() =~= seq![]);
    reveal_with_fuel(scan::number, 3);
}

/// Different numbers are written differently.
pub proof fn law_decimal_differs(m: nat, n: nat)
    requires
        m != n,
    ensures
        buf::decimal(m) != buf::decimal(n),
        buf::decimal_2dp(m) != buf::decimal_2dp(n),
{
    law_decimal(m);
    law_decimal(n);
    law_decimal_2dp(m);
    law_decimal_2dp(n);
}

/// A call reads the first run of digits, whatever stands around it, modulo 2 to the 64.
pub proof fn law_parse_u64(s: &[u8], a: Seq<u8>, d: Seq<u8>, b: Seq<u8>, r: u64)
    requires
        call_ensures(parse_u64_b, (s,), r),
        s@ == a + d + b,
        no_digits(a),
        digits(d),
        b.len() > 0 ==> no_digits(b.take(1)),
        d.len() == 0 ==> b.len() == 0,
    ensures
        r == scan::number(d) % 0x1_0000_0000_0000_0000,
        d.len() == 0 ==> r == 0,
{
    law_u64_value(a, d, b);
}

/// The value of a text is that of its first run of digits.
pub proof fn law_u64_value(a: Seq<u8>, d: Seq<u8>, b: Seq<u8>)
    requires
        no_digits(a),
        digits(d),
        b.len() > 0 ==> no_digits(b.take(1)),
        d.len() == 0 ==> b.len() == 0,
    ensures
        scan::u64_value(a + d + b) == scan::number(d) % 0x1_0000_0000_0000_0000,
{
    let s = a + d + b;
    let p = scan::non_digit();
    assert forall|k: int| 0 <= k < a.len() implies p(#[trigger] s[k]) by {
        assert(!('0' as u8 <= a[k] <= '9' as u8));
    }
    if d.len() > 0 {
        assert('0' as u8 <= d[0] <= '9' as u8);
    }
    scan::lemma_strip_front(s, p, a.len() as int);
    let t = s.skip(a.len() as int);
    assert(t =~= d + b);
    assert forall|k: int| 0 <= k < d.len() implies !p(#[trigger] t[k]) by {
        assert('0' as u8 <= d[k] <= '9' as u8);
    }
    if b.len() > 0 {
        assert(b.take(1)[0] == b[0]);
        assert(p(t[d.len() as int]));
    }
    scan::lemma_first_of(t, p, d.len() as int);
    assert(t.take(d.len() as int) =~= d);
}

/// What a written number reads as: any number below 2 to the 64 that is written in decimal, with
/// anything but digits around it.
pub proof fn law_number_in_text(a: Seq<u8>, n: u64, b: Seq<u8>)
    requires
        no_digits(a),
        b.len() > 0 ==> no_digits(b.take(1)),
    ensures
        scan::u64_value(a + buf::decimal(n as nat) + b) == n,
{
    law_decimal(n as nat);
    law_u64_value(a, buf::decimal(n as nat), b);
}

/// What a line `key<sep>value` is made of: `head` ends at the first separator, `lead` and `trail`
/// are the blanks and quotes around the value, and the key is followed by a separator or a blank.
pub open spec fn is_value_line(
    line: Seq<u8>,
    key: Seq<u8>,
    sep: u8,
    head: Seq<u8>,
    lead: Seq<u8>,
    val: Seq<u8>,
    trail: Seq<u8>,
) -> bool {
    &&& line == head + seq![sep] + lead + val + trail
    &&& without(head, sep)
    &&& key.len() < line.len()
    &&& line.take(key.len() as int) == key
    &&& line[key.len() as int] == sep || is_blank(line[key.len() as int])
    &&& forall|i: int|
        0 <= i < lead.len() ==> is_blank(#[trigger] lead[i]) || lead[i] == '"' as u8
    &&& val.len() > 0
    &&& !is_blank(val[0])
    &&& val[0] != '"' as u8
    &&& !is_blank(val.last())
    &&& val.last() != '"' as u8
    &&& val.last() != '\r' as u8
    &&& forall|i: int|
        0 <= i < trail.len() ==> is_blank(#[trigger] trail[i]) || trail[i] == '"' as u8 || trail[i]
            == '\r' as u8
}

/// The value on a line is exactly the value that the line is made of.
pub proof fn law_line_val(
    line: Seq<u8>,
    key: Seq<u8>,
    sep: u8,
    head: Seq<u8>,
    lead: Seq<u8>,
    val: Seq<u8>,
    trail: Seq<u8>,
)
    requires
        is_value_line(line, key, sep, head, lead, val, trail),
    ensures
        scan::line_val(line, key, sep) == Some(val),
{
    let at = head.len() as int;
    assert(line[at] == sep);
    assert(line.contains(sep));
    assert forall|k: int| 0 <= k < at implies !scan::only(sep)(#[trigger] line[k]) by {
        assert(head[k] != sep);
    }
    scan::lemma_first_of(line, scan::only(sep), at);
    let rest = line.skip(at + 1);
    assert(rest =~= lead + val + trail);
    assert forall|k: int| 0 <= k < lead.len() implies scan::before_value()(#[trigger] rest[k]) by {
        assert(is_blank(lead[k]) || lead[k] == '"' as u8);
    }
    assert(rest[lead.len() as int] == val[0]);
    scan::lemma_strip_front(rest, scan::before_value(), lead.len() as int);
    let tail = rest.skip(lead.len() as int);
    assert(tail =~= val + trail);
    assert forall|k: int| val.len() <= k < tail.len() implies scan::after_value()(
        #[trigger] tail[k],
    ) by {
        let j = k - val.len();
        assert(is_blank(trail[j]) || trail[j] == '"' as u8 || trail[j] == '\r' as u8);
    }
    assert(tail[val.len() - 1] == val.last());
    scan::lemma_strip_back(tail, scan::after_value(), val.len() as int);
    assert(tail.take(val.len() as int) =~= val);
}

/// What stripping from the front takes away.
pub proof fn lemma_stripped_front(s: Seq<u8>, p: scan::ByteClass) -> (i: int)
    ensures
        0 <= i <= s.len(),
        scan::strip_front(s, p) == s.skip(i),
        forall|k: int| 0 <= k < i ==> p(#[trigger] s[k]),
        i < s.len() ==> !p(s[i]),
    decreases s.len(),
{
    if s.len() > 0 && p(s[0]) {
        let t = s.drop_first();
        let j = lemma_stripped_front(t, p);
        assert(s.skip(j + 1) =~= t.skip(j));
        assert forall|k: int| 0 <= k < j + 1 implies p(#[trigger] s[k]) by {
            if k > 0 {
                assert(p(t[k - 1]));
            }
        }
        j + 1
    } else {
        assert(s.skip(0) =~= s);
        0
    }
}

/// What stripping from the back takes away.
proof fn lemma_stripped_back(s: Seq<u8>, p: scan::ByteClass) -> (i: int)
    ensures
        0 <= i <= s.len(),
        scan::strip_back(s, p) == s.take(i),
        forall|k: int| i <= k < s.len() ==> p(#[trigger] s[k]),
        i > 0 ==> !p(s[i - 1]),
    decreases s.len(),
{
    if s.len() > 0 && p(s.last()) {
        let t = s.drop_last();
        let i = lemma_stripped_back(t, p);
        assert(s.take(i) =~= t.take(i));
        assert forall|k: int| i <= k < s.len() implies p(#[trigger] s[k]) by {
            if k < t.len() {
                assert(p(t[k]));
            }
        }
        i
    } else {
        assert(s.take(s.len() as int) =~= s);
        s.len() as int
    }
}

/// Only a line that is made of a key and a value has that value.
pub proof fn law_line_val_only(line: Seq<u8>, key: Seq<u8>, sep: u8, val: Seq<u8>)
    requires
        scan::line_val(line, key, sep) == Some(val),
    ensures
        exists|head: Seq<u8>, lead: Seq<u8>, trail: Seq<u8>|
            is_value_line(line, key, sep, head, lead, val, trail),
{
    let at = scan::first_of(line, scan::only(sep));
    scan::lemma_first_of_props(line, scan::only(sep));
    let k = choose|k: int| 0 <= k < line.len() && line[k] == sep;
    assert(scan::only(sep)(line[k]));
    let rest = line.skip(at + 1);
    let i = lemma_stripped_front(rest, scan::before_value());
    let tail = rest.skip(i);
    let j = lemma_stripped_back(tail, scan::after_value());
    let head = line.take(at);
    let lead = rest.take(i);
    let trail = tail.skip(j);
    assert(val == tail.take(j));
    assert(line =~= head + seq![sep] + lead + val + trail);
    assert forall|k: int| 0 <= k < head.len() implies #[trigger] head[k] != sep by {
        assert(!scan::only(sep)(line[k]));
    }
    assert forall|k: int| 0 <= k < lead.len() implies is_blank(#[trigger] lead[k]) || lead[k]
        == '"' as u8 by {
        assert(scan::before_value()(rest[k]));
    }
    assert forall|k: int| 0 <= k < trail.len() implies is_blank(#[trigger] trail[k]) || trail[k]
        == '"' as u8 || trail[k] == '\r' as u8 by {
        assert(scan::after_value()(tail[k + j]));
    }
    assert(val[0] == rest[i]);
    assert(is_value_line(line, key, sep, head, lead, val, trail));
}

/// Lines that hold no line feed, with a line feed between each two, are split into these lines.
pub proof fn law_split(lines: Seq<Seq<u8>>, sep: u8)
    requires
        lines.len() > 0,
        forall|i: int| 0 <= i < lines.len() ==> without(#[trigger] lines[i], sep),
    ensures
        scan::split(scan::join(lines, sep), sep) == lines,
    decreases lines.len(),
{
    let s = scan::join(lines, sep);
    let first = lines[0];
    assert(without(first, sep));
    if lines.len() == 1 {
        assert forall|k: int| 0 <= k < s.len() implies !scan::only(sep)(#[trigger] s[k]) by {
            assert(first[k] != sep);
        }
        scan::lemma_first_of(s, scan::only(sep), s.len() as int);
        assert(scan::split(s, sep) =~= lines);
    } else {
        let rest = lines.drop_first();
        assert forall|i: int| 0 <= i < rest.len() implies without(#[trigger] rest[i], sep) by {
            assert(without(lines[i + 1], sep));
        }
        law_split(rest, sep);
        let n = first.len() as int;
        assert(s[n] == sep);
        assert forall|k: int| 0 <= k < n implies !scan::only(sep)(#[trigger] s[k]) by {
            assert(first[k] != sep);
        }
        scan::lemma_first_of(s, scan::only(sep), n);
        assert(s.take(n) =~= first);
        assert(s.skip(n + 1) =~= scan::join(rest, sep));
        assert(scan::split(s, sep) =~= lines);
    }
}

/// A key has the value of the first of the lines that has one.
pub proof fn law_value_of(lines: Seq<Seq<u8>>, key: Seq<u8>, sep: u8, i: int)
    requires
        0 <= i < lines.len(),
        forall|k: int| 0 <= k < lines.len() ==> without(#[trigger] lines[k], '\n' as u8),
        scan::line_val(lines[i], key, sep) is Some,
        forall|k: int| 0 <= k < i ==> scan::line_val(#[trigger] lines[k], key, sep) is None,
    ensures
        scan::value_of(scan::join(lines, '\n' as u8), key, sep) == scan::line_val(
            lines[i],
            key,
            sep,
        ),
{
    law_split(lines, '\n' as u8);
    scan::lemma_first_val(lines, key, sep, i);
}

/// A key has no value where no line has one.
pub proof fn law_no_value(lines: Seq<Seq<u8>>, key: Seq<u8>, sep: u8)
    requires
        lines.len() > 0,
        forall|k: int| 0 <= k < lines.len() ==> without(#[trigger] lines[k], '\n' as u8),
        forall|k: int| 0 <= k < lines.len() ==> scan::line_val(#[trigger] lines[k], key, sep) is None,
    ensures
        scan::value_of(scan::join(lines, '\n' as u8), key, sep) is None,
{
    law_split(lines, '\n' as u8);
    lemma_no_first_val(lines, key, sep);
}

proof fn lemma_no_first_val(lines: Seq<Seq<u8>>, key: Seq<u8>, sep: u8)
    requires
        forall|k: int| 0 <= k < lines.len() ==> scan::line_val(#[trigger] lines[k], key, sep) is None,
    ensures
        scan::first_val(lines, key, sep) is None,
    decreases lines.len(),
{
    if lines.len() > 0 {
        assert(scan::line_val(lines[0], key, sep) is None);
        let rest = lines.drop_first();
        assert forall|k: int| 0 <= k < rest.len() implies scan::line_val(
            #[trigger] rest[k],
            key,
            sep,
        ) is None by {
            assert(scan::line_val(lines[k + 1], key, sep) is None);
        }
        lemma_no_first_val(rest, key, sep);
    }
}

/// A text holds no line feed inside its lines, and is these lines with a line feed between each
/// two.
pub proof fn law_lines(content: Seq<u8>)
    ensures
        ({
            let lines = scan::split(content, '\n' as u8);
            &&& lines.len() > 0
            &&& scan::join(lines, '\n' as u8) == content
            &&& forall|i: int| 0 <= i < lines.len() ==> without(#[trigger] lines[i], '\n' as u8)
        }),
{
    scan::lemma_split_join(content, '\n' as u8);
    let lines = scan::split(content, '\n' as u8);
    assert forall|i: int| 0 <= i < lines.len() implies without(#[trigger] lines[i], '\n' as u8) by {
        assert forall|k: int| 0 <= k < lines[i].len() implies #[trigger] lines[i][k] != '\n' as u8 by {
            assert(!lines[i].contains('\n' as u8));
            assert(lines[i].contains(lines[i][k]));
        }
    }
}

/// A call finds the value of the first line that has one, and finds none where no line has one.
pub proof fn law_find_val(
    content: &[u8],
    key: &[u8],
    sep: u8,
    lines: Seq<Seq<u8>>,
    r: Option<&[u8]>,
)
    requires
        call_ensures(find_val, (content, key, sep), r),
        lines.len() > 0,
        content@ == scan::join(lines, '\n' as u8),
        forall|k: int| 0 <= k < lines.len() ==> without(#[trigger] lines[k], '\n' as u8),
    ensures
        r matches Some(v) ==> exists|i: int, head: Seq<u8>, lead: Seq<u8>, trail: Seq<u8>|
            0 <= i < lines.len() && #[trigger] is_value_line(
                lines[i],
                key@,
                sep,
                head,
                lead,
                v@,
                trail,
            ) && forall|k: int, h: Seq<u8>, l: Seq<u8>, w: Seq<u8>, t: Seq<u8>|
                0 <= k < i ==> !#[trigger] is_value_line(lines[k], key@, sep, h, l, w, t),
        r is None ==> forall|k: int, h: Seq<u8>, l: Seq<u8>, w: Seq<u8>, t: Seq<u8>|
            0 <= k < lines.len() ==> !#[trigger] is_value_line(lines[k], key@, sep, h, l, w, t),
{
    law_split(lines, '\n' as u8);
    let n = lemma_first_val_at(lines, key@, sep);
    assert forall|k: int, h: Seq<u8>, l: Seq<u8>, w: Seq<u8>, t: Seq<u8>|
        0 <= k < n implies !#[trigger] is_value_line(lines[k], key@, sep, h, l, w, t) by {
        if is_value_line(lines[k], key@, sep, h, l, w, t) {
            law_line_val(lines[k], key@, sep, h, l, w, t);
            assert(scan::line_val(lines[k], key@, sep) is None);
        }
    }
    if let Some(v) = r {
        law_line_val_only(lines[n], key@, sep, v@);
        let (head, lead, trail) = choose|head: Seq<u8>, lead: Seq<u8>, trail: Seq<u8>|
            is_value_line(lines[n], key@, sep, head, lead, v@, trail);
        assert(is_value_line(lines[n], key@, sep, head, lead, v@, trail));
    }
}

/// Which line the first value stands on.
proof fn lemma_first_val_at(lines: Seq<Seq<u8>>, key: Seq<u8>, sep: u8) -> (i: int)
    ensures
        0 <= i <= lines.len(),
        forall|k: int| 0 <= k < i ==> scan::line_val(#[trigger] lines[k], key, sep) is None,
        i < lines.len() ==> scan::first_val(lines, key, sep) == scan::line_val(lines[i], key, sep)
            && scan::line_val(lines[i], key, sep) is Some,
        i == lines.len() ==> scan::first_val(lines, key, sep) is None,
    decreases lines.len(),
{
    if lines.len() == 0 || scan::line_val(lines[0], key, sep) is Some {
        0
    } else {
        let rest = lines.drop_first();
        let j = lemma_first_val_at(rest, key, sep);
        assert forall|k: int| 0 <= k < j + 1 implies scan::line_val(
            #[trigger] lines[k],
            key,
            sep,
        ) is None by {
            if k > 0 {
                assert(rest[k - 1] == lines[k]);
            }
        }
        j + 1
    }
}

/// A call tells of exactly the texts that hold a word whether they do.
pub proof fn law_contains(s: &[u8], w: &[u8], r: bool)
    requires
        call_ensures(contains, (s, w), r),
    ensures
        r <==> exists|a: Seq<u8>, b: Seq<u8>| s@ == #[trigger] (a + w@ + b),
{
    law_occurs(s@, w@);
}

/// A word occurs in exactly the texts that are made of something, the word and something more.
pub proof fn law_occurs(s: Seq<u8>, w: Seq<u8>)
    ensures
        scan::occurs(s, w) <==> exists|a: Seq<u8>, b: Seq<u8>| s == #[trigger] (a + w + b),
{
    if scan::occurs(s, w) {
        let i = choose|i: int|
            0 <= i && i + w.len() <= s.len() && #[trigger] s.subrange(i, i + w.len()) == w;
        assert(s =~= s.take(i) + w + s.skip(i + w.len()));
    }
    if exists|a: Seq<u8>, b: Seq<u8>| s == #[trigger] (a + w + b) {
        let (a, b) = choose|a: Seq<u8>, b: Seq<u8>| s == #[trigger] (a + w + b);
        let i = a.len() as int;
        assert(s.subrange(i, i + w.len()) =~= w);
    }
}

/// A text begins with exactly the texts that it continues.
pub proof fn law_begins(s: Seq<u8>, k: Seq<u8>)
    ensures
        scan::begins(s, k) <==> exists|t: Seq<u8>| s == #[trigger] (k + t),
{
    if scan::begins(s, k) {
        assert(s =~= k + s.skip(k.len() as int));
    }
    if exists|t: Seq<u8>| s == #[trigger] (k + t) {
        let t = choose|t: Seq<u8>| s == #[trigger] (k + t);
        assert(s.take(k.len() as int) =~= k);
    }
}

/// A call tells of exactly the texts that continue `k` that they do.
pub proof fn law_starts_with(s: &[u8], k: &[u8], r: bool)
    requires
        call_ensures(starts_with, (s, k), r),
    ensures
        r <==> exists|t: Seq<u8>| s@ == #[trigger] (k@ + t),
{
    law_begins(s@, k@);
}

/// A call takes the piece of its place, and nothing behind the last.
pub proof fn law_piece(s: &[u8], sep: u8, k: usize, pieces: Seq<Seq<u8>>, r: &[u8])
    requires
        call_ensures(piece, (s, sep, k), r),
        pieces.len() > 0,
        s@ == scan::join(pieces, sep),
        forall|i: int| 0 <= i < pieces.len() ==> without(#[trigger] pieces[i], sep),
    ensures
        k < pieces.len() ==> r@ == pieces[k as int],
        k >= pieces.len() ==> r@.len() == 0,
{
    law_split(pieces, sep);
}

/// A C string is what stands before the first null byte, or all where there is none.
pub proof fn law_cstr(s: Seq<u8>, t: Seq<u8>)
    requires
        without(s, 0),
    ensures
        sys::cstr(s) == s,
        sys::cstr(s + seq![0u8] + t) == s,
{
    let all = s + seq![0u8] + t;
    assert forall|k: int| 0 <= k < s.len() implies !scan::only(0)(#[trigger] s[k]) by {
        assert(s[k] != 0);
    }
    assert forall|k: int| 0 <= k < s.len() implies !scan::only(0)(#[trigger] all[k]) by {
        assert(s[k] != 0);
    }
    assert(all[s.len() as int] == 0);
    scan::lemma_first_of(s, scan::only(0), s.len() as int);
    scan::lemma_first_of(all, scan::only(0), s.len() as int);
    assert(s.take(s.len() as int) =~= s);
    assert(all.take(s.len() as int) =~= s);
}

/// A call counts what stands before the first null byte.
pub proof fn law_cstr_len(buf: &[u8], r: usize)
    requires
        call_ensures(cstr_len, (buf,), r),
    ensures
        r <= buf@.len(),
        without(buf@.take(r as int), 0),
        r < buf@.len() ==> buf@[r as int] == 0,
{
    scan::lemma_first_of_props(buf@, scan::only(0));
    assert forall|k: int| 0 <= k < r implies #[trigger] buf@.take(r as int)[k] != 0 by {
        assert(!scan::only(0)(buf@[k]));
    }
}

/// A space that is too small keeps the start of a text, and one that is not keeps all of it.
pub proof fn law_clip(s: Seq<u8>, n: nat)
    ensures
        s.len() <= n ==> buf::clip(s, n) == s,
        s.len() > n ==> buf::clip(s, n) == s.take(n as int),
{
}

/// A byte that can end a decimal number.
pub open spec fn ends_number(b: u8) -> bool {
    &&& !('0' as u8 <= b <= '9' as u8)
    &&& b != '.' as u8
    &&& b != '-' as u8
}

/// A call takes a decimal number with a point apart into its sign, the digits before the point and
/// those behind it, whatever follows.
pub proof fn law_decimal_scan(
    s: &[u8],
    neg: bool,
    w: Seq<u8>,
    f: Seq<u8>,
    t: Seq<u8>,
    d: Decimal,
)
    requires
        call_ensures(Decimal::scan, (s,), d),
        s@ == (if neg {
            seq!['-' as u8]
        } else {
            seq![]
        }) + w + seq!['.' as u8] + f + t,
        digits(w),
        digits(f),
        t.len() > 0 ==> ends_number(t[0]),
    ensures
        d.neg == neg,
        d.whole@ == w,
        d.frac@ == f,
{
    law_decimal_parts(s@, neg, w, f, t);
}

/// The parts of a decimal number with a point.
pub proof fn law_decimal_parts(s: Seq<u8>, neg: bool, w: Seq<u8>, f: Seq<u8>, t: Seq<u8>)
    requires
        s == (if neg {
            seq!['-' as u8]
        } else {
            seq![]
        }) + w + seq!['.' as u8] + f + t,
        digits(w),
        digits(f),
        t.len() > 0 ==> ends_number(t[0]),
    ensures
        scan::whole_part(s).contains('-' as u8) == neg,
        scan::whole_part(s).filter(scan::digit()) == w,
        scan::frac_part(s).filter(scan::digit()) == f,
{
    let sign = if neg {
        seq!['-' as u8]
    } else {
        seq![]
    };
    let p = sign.len() + w.len();
    let end = p + 1 + f.len();
    assert forall|k: int| 0 <= k < p implies !scan::only(scan::DOT)(#[trigger] s[k]) by {
        if k >= sign.len() {
            assert('0' as u8 <= w[k - sign.len()] <= '9' as u8);
        }
    }
    assert(s[p as int] == '.' as u8);
    scan::lemma_first_of(s, scan::only(scan::DOT), p as int);
    assert forall|i: int| 0 <= i < end implies !scan::ends_decimal(s, i) by {
        if i < sign.len() {
        } else if i < p {
            assert('0' as u8 <= w[i - sign.len()] <= '9' as u8);
        } else if i > p {
            assert('0' as u8 <= f[i - p - 1] <= '9' as u8);
        }
    }
    if end < s.len() {
        assert(s[end as int] == t[0]);
        assert(scan::ends_decimal(s, end as int));
    }
    lemma_decimal_end(s, 0, end as int);
    assert(scan::whole_part(s) =~= sign + w);
    assert(scan::frac_part(s) =~= seq!['.' as u8] + f);
    lemma_all_digits(w);
    lemma_all_digits(f);
    Seq::filter_distributes_over_add(sign, w, scan::digit());
    Seq::filter_distributes_over_add(seq!['.' as u8], f, scan::digit());
    assert(sign.filter(scan::digit()) =~= seq![]) by {
        reveal_with_fuel(Seq::filter, 2);
        assert(seq!['-' as u8].drop_last() =~= seq![]);
    }
    assert(seq!['.' as u8].filter(scan::digit()) =~= seq![]) by {
        reveal_with_fuel(Seq::filter, 2);
        assert(seq!['.' as u8].drop_last() =~= seq![]);
    }
    if neg {
        assert((sign + w)[0] == '-' as u8);
    } else {
        assert forall|k: int| 0 <= k < w.len() implies #[trigger] (sign + w)[k] != '-' as u8 by {
            assert('0' as u8 <= w[k] <= '9' as u8);
        }
    }
}

proof fn lemma_decimal_end(s: Seq<u8>, i: int, end: int)
    requires
        0 <= i <= end <= s.len(),
        forall|k: int| i <= k < end ==> !scan::ends_decimal(s, k),
        end < s.len() ==> scan::ends_decimal(s, end),
    ensures
        scan::decimal_end(s, i) == end,
    decreases end - i,
{
    if i < end {
        assert(!scan::ends_decimal(s, i));
        lemma_decimal_end(s, i + 1, end);
    }
}

proof fn lemma_all_digits(s: Seq<u8>)
    requires
        digits(s),
    ensures
        s.filter(scan::digit()) == s,
{
    assert forall|i: int| 0 <= i < s.len() implies scan::digit()(#[trigger] s[i]) by {
        assert('0' as u8 <= s[i] <= '9' as u8);
    }
    scan::lemma_filter_digits(s);
}

/// A call takes a decimal number without a point for its digits, whatever follows.
pub proof fn law_decimal_whole(s: &[u8], w: Seq<u8>, t: Seq<u8>, d: Decimal)
    requires
        call_ensures(Decimal::scan, (s,), d),
        s@ == w + t,
        digits(w),
        exists|i: int| 0 <= i < w.len() && #[trigger] w[i] != '0' as u8,
        t.len() > 0 ==> ends_number(t[0]),
    ensures
        !d.neg,
        d.whole@ == w,
        d.frac@.len() == 0,
{
    let x = s@;
    let end = w.len() as int;
    scan::lemma_first_of_props(x, scan::only(scan::DOT));
    assert(scan::point(x) >= end) by {
        if scan::point(x) < end {
            assert('0' as u8 <= w[scan::point(x)] <= '9' as u8);
        }
    }
    assert forall|i: int| 0 <= i < end implies !scan::ends_decimal(x, i) by {
        assert('0' as u8 <= w[i] <= '9' as u8);
    }
    if end < x.len() {
        assert(x[end] == t[0]);
        let i = choose|i: int| 0 <= i < w.len() && #[trigger] w[i] != '0' as u8;
        assert('0' as u8 <= w[i] <= '9' as u8);
        assert(scan::ZERO < x[i] <= scan::NINE);
        assert(scan::ends_decimal(x, end));
    }
    lemma_decimal_end(x, 0, end);
    assert(scan::whole_part(x) =~= w);
    assert(scan::frac_part(x) =~= seq![]);
    lemma_all_digits(w);
    reveal(Seq::filter);
    assert forall|k: int| 0 <= k < w.len() implies #[trigger] w[k] != '-' as u8 by {
        assert('0' as u8 <= w[k] <= '9' as u8);
    }
}

/// What stands before the first digit above 0 and before any point does not end a decimal number,
/// whatever it is: the parts of what follows are the same as without it.
pub proof fn law_decimal_skip(a: Seq<u8>, s: Seq<u8>)
    requires
        forall|i: int|
            0 <= i < a.len() ==> #[trigger] a[i] != '.' as u8 && !('1' as u8 <= a[i] <= '9' as u8),
    ensures
        scan::whole_part(a + s) == a + scan::whole_part(s),
        scan::frac_part(a + s) == scan::frac_part(s),
{
    let x = a + s;
    let n = a.len() as int;
    let q = scan::point(s);
    scan::lemma_first_of_props(s, scan::only(scan::DOT));
    assert forall|k: int| 0 <= k < n + q implies !scan::only(scan::DOT)(#[trigger] x[k]) by {
        if k < n {
            assert(a[k] != '.' as u8);
        } else {
            assert(!scan::only(scan::DOT)(s[k - n]));
        }
    }
    if q < s.len() {
        assert(x[n + q] == s[q]);
    }
    scan::lemma_first_of(x, scan::only(scan::DOT), n + q);
    assert(scan::point(x) == n + q);
    assert forall|i: int| 0 <= i < n implies !scan::ends_decimal(x, i) by {
        assert forall|k: int| 0 <= k < i implies !(scan::ZERO < #[trigger] x[k] <= scan::NINE) by {
            assert(!('1' as u8 <= a[k] <= '9' as u8));
        }
    }
    assert forall|i: int| 0 <= i < s.len() implies scan::ends_decimal(x, n + i)
        == #[trigger] scan::ends_decimal(s, i) by {
        assert(x[n + i] == s[i]);
        if exists|k: int| 0 <= k < i && scan::ZERO < #[trigger] s[k] <= scan::NINE {
            let k = choose|k: int| 0 <= k < i && scan::ZERO < #[trigger] s[k] <= scan::NINE;
            assert(x[n + k] == s[k]);
        }
        if exists|k: int| 0 <= k < n + i && scan::ZERO < #[trigger] x[k] <= scan::NINE {
            let k = choose|k: int| 0 <= k < n + i && scan::ZERO < #[trigger] x[k] <= scan::NINE;
            if k < n {
                assert(!('1' as u8 <= a[k] <= '9' as u8));
            }
            assert(s[k - n] == x[k]);
        }
    }
    let end = lemma_decimal_ends(s, 0);
    assert forall|i: int| 0 <= i < n + end implies !scan::ends_decimal(x, i) by {
        if i >= n {
            assert(!scan::ends_decimal(s, i - n));
        }
    }
    if end < s.len() {
        assert(scan::ends_decimal(s, end));
    }
    lemma_decimal_end(x, 0, n + end);
    assert(scan::whole_part(x) =~= a + scan::whole_part(s));
    assert(scan::frac_part(x) =~= scan::frac_part(s));
}

/// Where a decimal number ends.
proof fn lemma_decimal_ends(s: Seq<u8>, i: int) -> (end: int)
    requires
        0 <= i <= s.len(),
    ensures
        i <= end <= s.len(),
        end == scan::decimal_end(s, i),
        forall|k: int| i <= k < end ==> !scan::ends_decimal(s, k),
        end < s.len() ==> scan::ends_decimal(s, end),
    decreases s.len() - i,
{
    if i >= s.len() || scan::ends_decimal(s, i) {
        i
    } else {
        lemma_decimal_ends(s, i + 1)
    }
}

/// Before the point stand digits and signs, of which any makes the number negative; behind it digits
/// and points, which end with the first other byte.
pub proof fn law_decimal_general(s: &[u8], w: Seq<u8>, f: Seq<u8>, t: Seq<u8>, d: Decimal)
    requires
        call_ensures(Decimal::scan, (s,), d),
        s@ == w + seq!['.' as u8] + f + t,
        forall|i: int|
            0 <= i < w.len() ==> '0' as u8 <= #[trigger] w[i] <= '9' as u8 || w[i] == '-' as u8,
        forall|i: int|
            0 <= i < f.len() ==> '0' as u8 <= #[trigger] f[i] <= '9' as u8 || f[i] == '.' as u8,
        t.len() > 0 ==> !('0' as u8 <= t[0] <= '9' as u8) && t[0] != '.' as u8,
    ensures
        d.neg <==> w.contains('-' as u8),
        d.whole@ == w.filter(|b: u8| '0' as u8 <= b <= '9' as u8),
        d.frac@ == f.filter(|b: u8| '0' as u8 <= b <= '9' as u8),
{
    let x = s@;
    let n = w.len() as int;
    let end = n + 1 + f.len();
    assert forall|k: int| 0 <= k < n implies !scan::only(scan::DOT)(#[trigger] x[k]) by {
        assert('0' as u8 <= w[k] <= '9' as u8 || w[k] == '-' as u8);
    }
    assert(x[n] == '.' as u8);
    scan::lemma_first_of(x, scan::only(scan::DOT), n);
    assert forall|i: int| 0 <= i < end implies !scan::ends_decimal(x, i) by {
        if i < n {
            assert('0' as u8 <= w[i] <= '9' as u8 || w[i] == '-' as u8);
        } else if i > n {
            assert('0' as u8 <= f[i - n - 1] <= '9' as u8 || f[i - n - 1] == '.' as u8);
        }
    }
    if end < x.len() {
        assert(x[end] == t[0]);
        assert(scan::ends_decimal(x, end));
    }
    lemma_decimal_end(x, 0, end);
    assert(scan::whole_part(x) =~= w);
    assert(scan::frac_part(x) =~= seq!['.' as u8] + f);
    assert(scan::digit() =~= |b: u8| '0' as u8 <= b <= '9' as u8);
    Seq::filter_distributes_over_add(seq!['.' as u8], f, scan::digit());
    lemma_none_digits(seq!['.' as u8]);
    assert(Seq::<u8>::empty() + f.filter(scan::digit()) =~= f.filter(scan::digit()));
}

/// A call tells of exactly the byte strings with the same bytes that they are the same.
pub proof fn law_same(a: &[u8], b: &[u8], r: bool)
    requires
        call_ensures(same, (a, b), r),
    ensures
        r <==> a@.len() == b@.len() && forall|i: int| 0 <= i < a@.len() ==> #[trigger] a@[i] == b@[i],
{
    if a@.len() == b@.len() && forall|i: int| 0 <= i < a@.len() ==> #[trigger] a@[i] == b@[i] {
        assert(a@ =~= b@);
    }
}

/// A call finds the first such byte from a position on, or the end.
pub proof fn law_find_byte(s: &[u8], from: usize, b: u8, i: usize)
    requires
        from <= s@.len(),
        call_ensures(find_byte, (s, from, b), i),
    ensures
        from <= i <= s@.len(),
        i < s@.len() ==> s@[i as int] == b,
        forall|k: int| from <= k < i ==> #[trigger] s@[k] != b,
{
    let t = s@.skip(from as int);
    scan::lemma_first_of_props(t, scan::only(b));
    assert forall|k: int| from <= k < i implies #[trigger] s@[k] != b by {
        assert(!scan::only(b)(t[k - from]));
    }
    if i < s@.len() {
        assert(t[i - from] == s@[i as int]);
    }
}

/// The pieces of a text are those that are joined to it, and a call takes the first one that is left.
pub proof fn law_pieces(
    s: &[u8],
    sep: u8,
    pieces: Seq<Seq<u8>>,
    fresh: Pieces,
    p: &mut Pieces,
    r: Option<&[u8]>,
)
    requires
        pieces.len() > 0,
        s@ == scan::join(pieces, sep),
        forall|i: int| 0 <= i < pieces.len() ==> without(#[trigger] pieces[i], sep),
    ensures
        call_ensures(Pieces::new, (s, sep), fresh) ==> fresh@ == pieces,
        call_ensures(Pieces::next, (p,), r) ==> {
            &&& old(p)@.len() == 0 ==> r is None && final(p)@.len() == 0
            &&& old(p)@.len() > 0 ==> r is Some && old(p)@ == seq![r->0@] + final(p)@
        },
{
    law_split(pieces, sep);
    if call_ensures(Pieces::next, (p,), r) && old(p)@.len() > 0 {
        assert(old(p)@ =~= seq![r->0@] + final(p)@);
    }
}

/// The digits of a text are those of its parts, a run of digits has all of them and a run of other
/// bytes none, and a call takes the first one that is left.
pub proof fn law_digits(
    s: &[u8],
    a: Seq<u8>,
    d: Seq<u8>,
    b: Seq<u8>,
    fresh: Digits,
    p: &mut Digits,
    r: Option<u8>,
)
    requires
        s@ == a + d + b,
        no_digits(a),
        digits(d),
        no_digits(b),
    ensures
        call_ensures(Digits::new, (s,), fresh) ==> fresh@ == d,
        call_ensures(Digits::next, (p,), r) ==> {
            &&& old(p)@.len() == 0 ==> r is None && final(p)@.len() == 0
            &&& old(p)@.len() > 0 ==> r is Some && old(p)@ == seq![r->0] + final(p)@
        },
{
    Seq::filter_distributes_over_add(a + d, b, scan::digit());
    Seq::filter_distributes_over_add(a, d, scan::digit());
    lemma_all_digits(d);
    lemma_none_digits(a);
    lemma_none_digits(b);
    assert(Seq::<u8>::empty() + d + Seq::<u8>::empty() =~= d);
    if call_ensures(Digits::next, (p,), r) && old(p)@.len() > 0 {
        assert(old(p)@ =~= seq![r->0] + final(p)@);
    }
}

proof fn lemma_none_digits(s: Seq<u8>)
    requires
        no_digits(s),
    ensures
        s.filter(scan::digit()) == Seq::<u8>::empty(),
    decreases s.len(),
{
    reveal(Seq::filter);
    if s.len() > 0 {
        assert(!('0' as u8 <= s[s.len() - 1] <= '9' as u8));
        assert(no_digits(s.drop_last())) by {
            assert forall|i: int| 0 <= i < s.drop_last().len() implies !('0' as u8
                <= #[trigger] s.drop_last()[i] <= '9' as u8) by {
                assert(!('0' as u8 <= s[i] <= '9' as u8));
            }
        }
        lemma_none_digits(s.drop_last());
    }
}

} // verus!
