use mstat::buf::Buf;
use mstat::scan::{parse_u64_b, Decimal, Digits};
use mstat::text::as_text;

fn digits(mut d: Digits) -> Vec<u8> {
    let mut v = Vec::new();
    while let Some(b) = d.next() {
        v.push(b);
    }
    v
}

#[test]
fn push_drops_what_does_not_fit() {
    let mut b = Buf::<4>::new();
    b.push_str("abc");
    b.push_bytes(&[100, 101, 102]);
    assert_eq!(b.as_str(), "abcd");
    b.push_byte(33);
    assert_eq!(b.len(), 4);
    assert_eq!(b.as_bytes(), b"abcd");
}

#[test]
fn new_buffer_is_empty() {
    let b = Buf::<8>::new();
    assert!(b.is_empty());
    assert_eq!(b.len(), 0);
    assert_eq!(b.as_str(), "");
    assert_eq!(b.char_count(), 0);
}

#[test]
fn buffer_of_no_bytes_keeps_nothing() {
    let mut b = Buf::<0>::new();
    b.push_byte(65);
    b.push_u64(12);
    b.push_2dp(345);
    assert!(b.is_empty());
}

#[test]
fn push_u64_writes_decimal_digits() {
    let mut b = Buf::<32>::new();
    b.push_u64(0);
    b.push_byte(b' ');
    b.push_u64(10);
    b.push_byte(b' ');
    b.push_u64(9075);
    assert_eq!(b.as_str(), "0 10 9075");
}

#[test]
fn push_u64_writes_the_largest_number() {
    let mut b = Buf::<32>::new();
    b.push_u64(u64::MAX);
    assert_eq!(b.as_str(), "18446744073709551615");
}

#[test]
fn push_u64_is_cut_off_behind_its_first_digits() {
    let mut b = Buf::<3>::new();
    b.push_u64(12345);
    assert_eq!(b.as_str(), "123");
}

#[test]
fn push_2dp_writes_two_places() {
    let mut b = Buf::<32>::new();
    b.push_2dp(0);
    b.push_byte(b' ');
    b.push_2dp(7);
    b.push_byte(b' ');
    b.push_2dp(350);
    b.push_byte(b' ');
    b.push_2dp(123456);
    assert_eq!(b.as_str(), "0.00 0.07 3.50 1234.56");
}

#[test]
fn number_reads_back() {
    let mut b = Buf::<32>::new();
    b.push_u64(18446744073709551615);
    assert_eq!(parse_u64_b(b.as_bytes()), 18446744073709551615);
    let mut c = Buf::<32>::new();
    c.push_u64(407);
    assert_eq!(parse_u64_b(c.as_bytes()), 407);
}

#[test]
fn hundredths_read_back() {
    let mut b = Buf::<32>::new();
    b.push_2dp(123456);
    let d = Decimal::scan(b.as_bytes());
    assert!(!d.neg);
    assert_eq!(digits(d.whole), b"1234");
    assert_eq!(digits(d.frac), b"56");
}

#[test]
fn char_count_counts_characters() {
    let mut b = Buf::<32>::new();
    b.push_str("zürich │");
    assert_eq!(b.len(), 11);
    assert_eq!(b.char_count(), 8);
    assert_eq!(b.as_str(), "zürich │");
}

#[test]
fn cut_character_is_not_shown() {
    let mut b = Buf::<4>::new();
    b.push_str("ab│c");
    assert_eq!(b.as_bytes(), &[b'a', b'b', 0xe2, 0x94]);
    assert_eq!(b.as_str(), "ab");
    assert_eq!(b.char_count(), 2);
}

#[test]
fn text_ends_at_the_first_ill_formed_byte() {
    assert_eq!(as_text(b"abc\xffdef"), "abc");
    assert_eq!(as_text(b"\x80abc"), "");
    assert_eq!(as_text(b""), "");
    assert_eq!(as_text("a\u{e9}\u{2502}\u{1f600}z".as_bytes()), "a\u{e9}\u{2502}\u{1f600}z");
}

#[test]
fn overlong_and_surrogate_bytes_are_ill_formed() {
    assert_eq!(as_text(b"a\xc0\x80"), "a");
    assert_eq!(as_text(b"a\xed\xa0\x80"), "a");
    assert_eq!(as_text(b"a\xf4\x90\x80\x80"), "a");
    assert_eq!(as_text(b"a\xe2\x28\xa1"), "a");
    assert_eq!(as_text(b"a\xf0\x9f\x98"), "a");
}

#[test]
fn copies_do_not_share() {
    let mut a = Buf::<8>::new();
    a.push_str("one");
    let b = a;
    a.push_str("two");
    assert_eq!(b.as_str(), "one");
    assert_eq!(a.as_str(), "onetwo");
}
