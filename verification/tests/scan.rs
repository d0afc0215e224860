use mstat::scan::{
    contains, cstr_len, find_byte, find_val, parse_u64_b, piece, same, starts_with, Decimal, Digits,
    Pieces,
};

#[test]
fn parse_u64_takes_the_first_run_of_digits() {
    assert_eq!(parse_u64_b(b"123"), 123);
    assert_eq!(parse_u64_b(b"  16384 kB"), 16384);
    assert_eq!(parse_u64_b(b"a12b34"), 12);
    assert_eq!(parse_u64_b(b"007"), 7);
}

#[test]
fn parse_u64_of_no_digits_is_zero() {
    assert_eq!(parse_u64_b(b""), 0);
    assert_eq!(parse_u64_b(b"kB"), 0);
    assert_eq!(parse_u64_b(b"-"), 0);
}

#[test]
fn parse_u64_wraps() {
    assert_eq!(parse_u64_b(b"18446744073709551615"), u64::MAX);
    assert_eq!(parse_u64_b(b"18446744073709551616"), 0);
    assert_eq!(parse_u64_b(b"18446744073709551618"), 2);
}

#[test]
fn find_val_reads_proc_lines() {
    let text = b"model name\t: Intel(R) Core(TM)\ncpu MHz\t\t: 2494.222\nMemTotal:       16384 kB\n";
    assert_eq!(find_val(text, b"model name", b':'), Some(&b"Intel(R) Core(TM)"[..]));
    assert_eq!(find_val(text, b"cpu MHz", b':'), Some(&b"2494.222"[..]));
    assert_eq!(find_val(text, b"MemTotal", b':'), Some(&b"16384 kB"[..]));
}

#[test]
fn find_val_reads_os_release_lines() {
    let text = b"NAME=\"Debian GNU/Linux\"\nVERSION_CODENAME=trixie\r\nID=debian\nVERSION=\"13 (trixie)\"";
    assert_eq!(find_val(text, b"NAME", b'='), Some(&b"Debian GNU/Linux"[..]));
    assert_eq!(find_val(text, b"ID", b'='), Some(&b"debian"[..]));
    assert_eq!(find_val(text, b"VERSION_CODENAME", b'='), Some(&b"trixie"[..]));
    assert_eq!(find_val(text, b"VERSION", b'='), Some(&b"13 (trixie)"[..]));
}

#[test]
fn find_val_matches_whole_keys() {
    assert_eq!(find_val(b"IDENT=x\n", b"ID", b'='), None);
    assert_eq!(find_val(b" ID=x\n", b"ID", b'='), None);
    assert_eq!(find_val(b"ID", b"ID", b'='), None);
    assert_eq!(find_val(b"ID x\n", b"ID", b'='), None);
    assert_eq!(find_val(b"", b"ID", b'='), None);
}

#[test]
fn find_val_skips_lines_without_a_value() {
    assert_eq!(find_val(b"ID=\"\"\nID=arch\n", b"ID", b'='), Some(&b"arch"[..]));
    assert_eq!(find_val(b"ID= \t\"\r\n", b"ID", b'='), None);
}

#[test]
fn find_val_takes_the_first_line_that_has_a_value() {
    assert_eq!(find_val(b"k: one\nk: two\n", b"k", b':'), Some(&b"one"[..]));
    assert_eq!(find_val(b"j: zero\nk: one\nk: two\n", b"k", b':'), Some(&b"one"[..]));
}

#[test]
fn find_val_keeps_what_stands_inside_a_value() {
    assert_eq!(find_val(b"k: \"a b: \"c\" \r\n", b"k", b':'), Some(&b"a b: \"c"[..]));
    assert_eq!(find_val(b"k:\ra\n", b"k", b':'), Some(&b"\ra"[..]));
}

#[test]
fn pieces_hold_no_separator_and_join_to_the_whole() {
    let text = b"a,bc,,d,";
    let mut pieces = Pieces::new(text, b',');
    let mut all: Vec<Vec<u8>> = Vec::new();
    while let Some(x) = pieces.next() {
        all.push(x.to_vec());
    }
    assert_eq!(all, vec![b"a".to_vec(), b"bc".to_vec(), vec![], b"d".to_vec(), vec![]]);
    assert_eq!(all.join(&b','), text.to_vec());
    assert!(pieces.next().is_none());
}

#[test]
fn nothing_has_one_empty_piece() {
    let mut pieces = Pieces::new(b"", b',');
    assert_eq!(pieces.next(), Some(&b""[..]));
    assert_eq!(pieces.next(), None);
}

#[test]
fn piece_takes_a_field() {
    let text = b"0.52 0.58 0.59 1/467 12345";
    assert_eq!(piece(text, b' ', 0), b"0.52");
    assert_eq!(piece(text, b' ', 2), b"0.59");
    assert_eq!(piece(text, b' ', 4), b"12345");
    assert_eq!(piece(text, b' ', 5), b"");
}

#[test]
fn byte_search() {
    assert_eq!(find_byte(b"abcabc", 0, b'c'), 2);
    assert_eq!(find_byte(b"abcabc", 3, b'c'), 5);
    assert_eq!(find_byte(b"abcabc", 3, b'x'), 6);
    assert_eq!(find_byte(b"", 0, b'x'), 0);
}

#[test]
fn prefix_equality_and_occurrence() {
    assert!(starts_with(b"processor : 0", b"processor"));
    assert!(starts_with(b"abc", b""));
    assert!(!starts_with(b"ab", b"abc"));
    assert!(!starts_with(b"abd", b"abc"));
    assert!(same(b"user", b"user"));
    assert!(!same(b"user", b"users"));
    assert!(!same(b"user", b"uses"));
    assert!(contains(b"rpool / zfs rw", b"zfs"));
    assert!(contains(b"zfs", b"zfs"));
    assert!(!contains(b"zf", b"zfs"));
    assert!(!contains(b"ext4 zf s", b"zfs"));
    assert!(contains(b"", b""));
}

#[test]
fn c_strings_end_at_the_first_null() {
    assert_eq!(cstr_len(b"host\0\0\0"), 4);
    assert_eq!(cstr_len(b"\0host"), 0);
    assert_eq!(cstr_len(b"host"), 4);
    assert_eq!(cstr_len(b""), 0);
}

fn all(mut d: Digits) -> Vec<u8> {
    let mut v = Vec::new();
    while let Some(b) = d.next() {
        v.push(b);
    }
    assert!(d.next().is_none());
    v
}

fn decimal(s: &[u8]) -> (bool, Vec<u8>, Vec<u8>) {
    let d = Decimal::scan(s);
    (d.neg, all(d.whole), all(d.frac))
}

#[test]
fn digits_are_taken_one_by_one() {
    assert_eq!(all(Digits::new(b" 1a2.3-")), b"123");
    assert_eq!(all(Digits::new(b"")), b"");
    assert_eq!(all(Digits::new(b"abc")), b"");
}

#[test]
fn decimal_numbers_are_taken_apart() {
    assert_eq!(decimal(b"0.52"), (false, b"0".to_vec(), b"52".to_vec()));
    assert_eq!(decimal(b"2494.222"), (false, b"2494".to_vec(), b"222".to_vec()));
    assert_eq!(decimal(b"17"), (false, b"17".to_vec(), vec![]));
    assert_eq!(decimal(b""), (false, vec![], vec![]));
}

#[test]
fn decimal_numbers_have_a_sign() {
    assert_eq!(decimal(b"-1.5"), (true, b"1".to_vec(), b"5".to_vec()));
    assert_eq!(decimal(b"1-2"), (true, b"12".to_vec(), vec![]));
    assert_eq!(decimal(b"1.-2"), (false, b"1".to_vec(), vec![]));
}

#[test]
fn decimal_numbers_end_where_they_have_begun() {
    assert_eq!(decimal(b"350735.47 234388.90\n"), (false, b"350735".to_vec(), b"47".to_vec()));
    assert_eq!(decimal(b"  12 34"), (false, b"12".to_vec(), vec![]));
    assert_eq!(decimal(b"0 34"), (false, b"034".to_vec(), vec![]));
    assert_eq!(decimal(b". 5"), (false, vec![], vec![]));
    assert_eq!(decimal(b"1.2.3"), (false, b"1".to_vec(), b"23".to_vec()));
}
