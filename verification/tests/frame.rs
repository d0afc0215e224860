use mstat::buf::Buf;
use mstat::frame::{Cell, DivStyle, Frame, FRAME_H, FRAME_W};

fn text(f: &Frame) -> String {
    let mut out = vec![0u8; 65536];
    let n = f.write_full(&mut out);
    String::from_utf8(out[..n].to_vec()).unwrap()
}

#[test]
fn cells_hold_characters() {
    let a = Cell::from_char('A');
    assert_eq!(a.b, [65, 0, 0, 0]);
    assert_eq!(a.len, 1);
    let e = Cell::from_char('é');
    assert_eq!(e.b, [0xc3, 0xa9, 0, 0]);
    assert_eq!(e.len, 2);
    let bar = Cell::from_char('│');
    assert_eq!(bar.b, [0xe2, 0x94, 0x82, 0]);
    assert_eq!(bar.len, 3);
    let face = Cell::from_char('\u{1f600}');
    assert_eq!(face.b, [0xf0, 0x9f, 0x98, 0x80]);
    assert_eq!(face.len, 4);
    assert!(Cell::space() == Cell::from_char(' '));
    assert_eq!(Cell::space().b, [32, 0, 0, 0]);
    assert!(Cell::from_char('a') == Cell::from_char('a'));
    assert!(Cell::from_char('a') != Cell::from_char('b'));
}

#[test]
fn characters_at_the_edges_of_their_lengths() {
    for c in ['\0', '\u{7f}', '\u{80}', '\u{7ff}', '\u{800}', '\u{ffff}', '\u{10000}', '\u{10ffff}'] {
        let cell = Cell::from_char(c);
        let mut b = [0u8; 4];
        let n = c.encode_utf8(&mut b).len();
        assert_eq!(cell.len as usize, n);
        assert_eq!(cell.b, b);
    }
}

#[test]
fn new_frame_is_blank() {
    let f = Frame::new(3, 2);
    assert_eq!((f.w, f.h, f.col, f.row), (3, 2, 0, 0));
    assert_eq!(text(&f), "   \n   ");
}

#[test]
fn cells_that_are_not_shown_stay_blank() {
    let mut f = Frame::new(4, 1);
    f.put_str("abcdef");
    f.newline();
    f.put_str("ghi");
    f.home();
    f.put_str_padded("abcdefgh", 6);
    f.put_divider(DivStyle::Mid, 0);
    f.w = 120;
    f.h = 80;
    let all = text(&f);
    let rows: Vec<&str> = all.split('\n').collect();
    assert_eq!(rows.len(), 80);
    assert!(rows[0].starts_with("abc. "));
    assert!(rows[0][4..].chars().all(|c| c == ' '));
    for row in &rows[1..] {
        assert_eq!(*row, " ".repeat(120));
    }
}

#[test]
fn frames_fit_the_grid() {
    let f = Frame::new(500, 500);
    assert_eq!((f.w, f.h), (FRAME_W, FRAME_H));
    assert_eq!((f.w, f.h), (120, 80));
}

#[test]
fn frame_without_rows_writes_nothing() {
    assert_eq!(text(&Frame::new(5, 0)), "");
    assert_eq!(text(&Frame::new(0, 3)), "\n\n");
}

#[test]
fn put_moves_the_cursor() {
    let mut f = Frame::new(3, 2);
    f.put(Cell::from_char('x'));
    f.put_char('y');
    assert_eq!((f.col, f.row), (2, 0));
    f.newline();
    f.put_str("zé");
    assert_eq!((f.col, f.row), (2, 1));
    assert_eq!(text(&f), "xy \nzé ");
}

#[test]
fn nothing_is_written_outside_the_frame() {
    let mut f = Frame::new(3, 1);
    f.put_str("abcdef");
    assert_eq!(f.col, 3);
    f.newline();
    f.put_str("ghi");
    assert_eq!((f.col, f.row), (0, 1));
    assert_eq!(text(&f), "abc");
}

#[test]
fn fills_repeat() {
    let mut f = Frame::new(6, 1);
    f.fill_char('=', 2);
    f.fill_spaces(1);
    f.fill_char('#', 0);
    f.fill_char('*', 9);
    assert_eq!(text(&f), "== ***");
}

#[test]
fn home_moves_back() {
    let mut f = Frame::new(2, 2);
    f.put_str("ab");
    f.newline();
    f.home();
    f.put_char('c');
    assert_eq!(text(&f), "cb\n  ");
}

#[test]
fn header_edge() {
    let mut f = Frame::new(5, 1);
    f.put_header();
    assert_eq!(text(&f), "┌───┐");
    assert_eq!((f.col, f.row), (0, 1));
}

#[test]
fn centered_text() {
    let mut f = Frame::new(8, 3);
    f.put_centered("ab");
    f.put_centered("abc");
    f.put_centered("abcdefghi");
    assert_eq!(text(&f), "│  ab  │\n│ abc  │\n│abcdef│");
}

#[test]
fn dividers_have_a_junction() {
    let mut f = Frame::new(9, 3);
    f.put_divider(DivStyle::Top, 1);
    f.put_divider(DivStyle::Mid, 1);
    f.put_divider(DivStyle::Bot, 1);
    assert_eq!(text(&f), "├───┬───┤\n├───┼───┤\n└───┴───┘");
}

#[test]
fn junction_outside_is_not_drawn() {
    let mut f = Frame::new(5, 1);
    f.put_divider(DivStyle::Mid, 9);
    assert_eq!(text(&f), "├───┤");
}

#[test]
fn rows_are_padded() {
    let mut f = Frame::new(15, 1);
    f.put_row("OS", "Arch", 3, 5);
    assert_eq!(text(&f), "│ OS  │ Arch  │");
}

#[test]
fn long_texts_are_cut_short_with_dots() {
    let mut f = Frame::new(16, 2);
    f.put_row("NAMES", "abcdef", 4, 5);
    f.put_row("NAME", "abcde", 4, 5);
    assert_eq!(text(&f), "│ N... │ ab... │\n│ NAME │ abcde │");
}

#[test]
fn narrow_columns_just_cut_off() {
    let mut f = Frame::new(10, 1);
    f.put_str_padded("abcd", 2);
    assert_eq!(f.col, 2);
    assert_eq!(text(&f), "ab        ");
    f.put_str_padded("x", 2);
    f.put_str_padded("abcd", 0);
    f.put_str_padded("abcd", 3);
    assert_eq!(text(&f), "abx ...   ");
    let mut row = Frame::new(10, 1);
    row.put_row("NAME", "data", 1, 2);
    assert_eq!(text(&row), "│ N │ da │");
}

#[test]
fn rows_from_buffers() {
    let mut data = Buf::<8>::new();
    data.push_str("été");
    let mut f = Frame::new(15, 1);
    f.put_row_buf("K", &data, 3, 5);
    assert_eq!(text(&f), "│ K   │ été   │");
}

#[test]
fn bars() {
    let mut f = Frame::new(15, 3);
    f.put_bar_row("A", 0, 3, 5);
    f.put_bar_row("B", 2, 3, 5);
    f.put_bar_row("C", 99, 3, 5);
    assert_eq!(text(&f), "│ A   │ ░░░░░ │\n│ B   │ ██░░░ │\n│ C   │ █████ │");
}

#[test]
fn empty_rows() {
    let mut f = Frame::new(15, 4);
    f.put_empty_row(3, 5);
    f.put_empty_rows(3, 3, 5);
    f.put_empty_rows(1, 3, 5);
    assert_eq!(f.row, 3);
    assert_eq!(text(&f), "│     │       │\n│     │       │\n│     │       │\n               ");
}

#[test]
fn bytes_behind_the_frame_stay() {
    let mut f = Frame::new(2, 2);
    f.put_char('│');
    let mut out = [7u8; 10];
    let n = f.write_full(&mut out);
    assert_eq!(n, 7);
    assert_eq!(&out, &[0xe2, 0x94, 0x82, 32, 10, 32, 32, 7, 7, 7]);
}

#[test]
fn lines_end_with_a_line_feed() {
    let f = Frame::new(2, 2);
    let mut out = [7u8; 8];
    let n = f.write_lines(&mut out);
    assert_eq!(n, 6);
    assert_eq!(&out, b"  \n  \n\x07\x07");
}

#[test]
fn largest_frame_fits_its_bound() {
    let mut f = Frame::new(120, 80);
    for _ in 0..80 {
        f.fill_char('\u{1f600}', 120);
        f.newline();
    }
    let mut out = vec![0u8; 38479];
    assert_eq!(f.write_full(&mut out), 38479);
}
