//! A frame buffer of character cells.
//!
//! The frame is a grid of `Cell`s, each of which holds one character in UTF-8. The `put_*`
//! methods fill it from a cursor; `write_full` serializes it to bytes.

use crate::buf::Buf;
use crate::scan::LF;
use vstd::prelude::*;
use vstd::std_specs::iter::IteratorSpec;
use vstd::string::*;
use vstd::utf8::*;

verus! {

/// The most columns that a frame can have.
pub const FRAME_W: usize = 120;

/// The most rows that a frame can have.
pub const FRAME_H: usize = 80;

const FRAME_CELLS: usize = 9600;

/// The byte at `i`, or zero behind the end.
pub open spec fn byte_at(s: Seq<u8>, i: int) -> u8 {
    if i < s.len() {
        s[i]
    } else {
        0
    }
}

/// The cell that shows a character: its UTF-8 bytes, with zeros behind them.
pub open spec fn cell_of(c: char) -> Cell {
    let e = encode_scalar(c as u32);
    Cell { b: [byte_at(e, 0), byte_at(e, 1), byte_at(e, 2), byte_at(e, 3)], len: e.len() as u8 }
}

/// The cells that show a string.
pub open spec fn cells_of(s: Seq<char>) -> Seq<Cell> {
    Seq::new(s.len(), |i: int| cell_of(s[i]))
}

/// `n` times the character `c`.
pub open spec fn repeated(c: char, n: int) -> Seq<char> {
    Seq::new(n as nat, |i: int| c)
}

/// The cells of a frame, how many columns and rows of them it shows, and where its cursor stands.
#[verifier::ext_equal]
pub struct Screen {
    pub w: int,
    pub h: int,
    pub col: int,
    pub row: int,
    pub rows: Seq<Seq<Cell>>,
}

impl Screen {
    /// The grid has `FRAME_H` rows of `FRAME_W` cells in order, of which `h` and `w` are shown.
    pub open spec fn wf(self) -> bool {
        &&& 0 <= self.w <= FRAME_W
        &&& 0 <= self.h <= FRAME_H
        &&& 0 <= self.col
        &&& 0 <= self.row
        &&& self.rows.len() == FRAME_H
        &&& forall|r: int| 0 <= r < FRAME_H ==> (#[trigger] self.rows[r]).len() == FRAME_W
        &&& forall|r: int, c: int|
            0 <= r < FRAME_H && 0 <= c < FRAME_W ==> (#[trigger] self.rows[r][c]).wf()
    }

    /// The part of the grid that is shown.
    pub open spec fn shown(self) -> Seq<Seq<Cell>> {
        Seq::new(self.h as nat, |r: int| self.rows[r].take(self.w))
    }

    /// The number of columns between the cursor and the right edge.
    pub open spec fn room(self) -> int {
        if self.row < self.h && self.col < self.w {
            self.w - self.col
        } else {
            0
        }
    }

    /// Writes cells at the cursor, as far as the right edge, and changes no other cell.
    pub open spec fn put(self, s: Seq<Cell>) -> Screen {
        let n = if s.len() <= self.room() {
            s.len() as int
        } else {
            self.room()
        };
        if n == 0 {
            self
        } else {
            let line = self.rows[self.row];
            Screen {
                col: self.col + n,
                rows: self.rows.update(
                    self.row,
                    line.take(self.col) + s.take(n) + line.skip(self.col + n),
                ),
                ..self
            }
        }
    }

    /// Moves the cursor to the start of the next row.
    pub open spec fn newline(self) -> Screen {
        Screen { col: 0, row: self.row + 1, ..self }
    }

    /// Writes a line of text and moves on to the next row.
    pub open spec fn line(self, s: Seq<char>) -> Screen {
        self.put(cells_of(s)).newline()
    }

    /// Writes some lines of text, one to a row.
    pub open spec fn lines(self, l: Seq<Seq<char>>) -> Screen
        decreases l.len(),
    {
        if l.len() == 0 {
            self
        } else {
            self.lines(l.drop_last()).line(l.last())
        }
    }
}

/// A screen of `w` columns and `h` rows, as far as the grid reaches, with its cursor in the first
/// column of the first row and blanks in the whole grid.
pub open spec fn blank_screen(w: int, h: int) -> Screen {
    let w1 = if w <= FRAME_W { w } else { FRAME_W as int };
    let h1 = if h <= FRAME_H { h } else { FRAME_H as int };
    Screen {
        w: w1,
        h: h1,
        col: 0,
        row: 0,
        rows: Seq::new(FRAME_H as nat, |r: int| cells_of(repeated(' ', FRAME_W as int))),
    }
}

/// Writing nothing changes nothing.
pub proof fn lemma_put_nothing(s: Screen)
    requires
        s.wf(),
    ensures
        s.put(cells_of(seq![])) == s,
{
}

/// The cell of a character shows it.
pub proof fn lemma_cell_of(c: char)
    ensures
        cell_of(c).wf(),
        cell_of(c).shows(c),
        cell_of(c)@ == encode_scalar(c as u32),
{
    assert(cell_of(c)@ =~= encode_scalar(c as u32));
}

/// A write of cells in order keeps the shape of the grid.
pub proof fn lemma_put_wf(s: Screen, a: Seq<Cell>)
    requires
        s.wf(),
        forall|i: int| 0 <= i < a.len() ==> (#[trigger] a[i]).wf(),
    ensures
        s.put(a).wf(),
{
    let t = s.put(a);
    assert forall|r: int, c: int| 0 <= r < FRAME_H && 0 <= c < FRAME_W implies (
    #[trigger] t.rows[r][c]).wf() by {
        assert(s.rows[r][c].wf());
        if r == s.row && s.col <= c < t.col {
            assert(a[c - s.col].wf());
        }
    }
}

/// A write of text keeps the shape of the grid.
pub proof fn lemma_put_text_wf(s: Screen, a: Seq<char>)
    requires
        s.wf(),
    ensures
        s.put(cells_of(a)).wf(),
{
    assert forall|i: int| 0 <= i < a.len() implies (#[trigger] cells_of(a)[i]).wf() by {
        lemma_cell_of(a[i]);
    }
    lemma_put_wf(s, cells_of(a));
}

/// Two writes in a row are one write.
pub proof fn lemma_put_put(s: Screen, a: Seq<Cell>, b: Seq<Cell>)
    requires
        s.wf(),
    ensures
        s.put(a).put(b) == s.put(a + b),
{
    let x = s.put(a).put(b);
    let y = s.put(a + b);
    if s.room() > 0 {
        assert(x.rows[s.row] =~= y.rows[s.row]);
    }
    assert(x.rows =~= y.rows);
    assert(x =~= y);
}

/// Writing two strings one after the other writes the string that they make.
pub proof fn lemma_put_text(s: Screen, a: Seq<char>, b: Seq<char>)
    requires
        s.wf(),
    ensures
        s.put(cells_of(a)).put(cells_of(b)) == s.put(cells_of(a + b)),
{
    lemma_put_put(s, cells_of(a), cells_of(b));
    assert(cells_of(a) + cells_of(b) =~= cells_of(a + b));
}

/// Some lines and then some more are all of those lines.
pub proof fn lemma_lines_lines(s: Screen, a: Seq<Seq<char>>, b: Seq<Seq<char>>)
    ensures
        s.lines(a).lines(b) == s.lines(a + b),
    decreases b.len(),
{
    if b.len() == 0 {
        assert(a + b =~= a);
    } else {
        lemma_lines_lines(s, a, b.drop_last());
        assert((a + b).drop_last() =~= a + b.drop_last());
    }
}

/// A few lines, one after the other.
pub proof fn lemma_few_lines(s: Screen, a: Seq<char>, b: Seq<char>, c: Seq<char>, d: Seq<char>)
    ensures
        s.line(a) == s.lines(seq![a]),
        s.line(a).line(b) == s.lines(seq![a, b]),
        s.line(a).line(b).line(c) == s.lines(seq![a, b, c]),
        s.line(a).line(b).line(c).line(d) == s.lines(seq![a, b, c, d]),
{
    reveal_with_fuel(Screen::lines, 5);
    assert(seq![a].drop_last() =~= seq![]);
    assert(seq![a, b].drop_last() =~= seq![a]);
    assert(seq![a, b, c].drop_last() =~= seq![a, b]);
    assert(seq![a, b, c, d].drop_last() =~= seq![a, b, c]);
}

/// Writing lines moves the cursor down by as many rows, and keeps the shape of the grid.
pub proof fn lemma_lines_shape(s: Screen, l: Seq<Seq<char>>)
    requires
        s.wf(),
    ensures
        s.lines(l).wf(),
        s.lines(l).w == s.w,
        s.lines(l).h == s.h,
        s.lines(l).row == s.row + l.len(),
        l.len() > 0 ==> s.lines(l).col == 0,
    decreases l.len(),
{
    if l.len() > 0 {
        lemma_lines_shape(s, l.drop_last());
        lemma_put_text_wf(s.lines(l.drop_last()), l.last());
    }
}

/// Lines that are at least as wide as the screen fill what is shown of the rows that they are
/// written to, of which nothing is left of what was there, and change no other cell.
pub proof fn lemma_lines_rows(s: Screen, l: Seq<Seq<char>>)
    requires
        s.wf(),
        s.col == 0,
        forall|i: int| 0 <= i < l.len() ==> (#[trigger] l[i]).len() >= s.w,
    ensures
        forall|r: int|
            0 <= r < FRAME_H ==> #[trigger] s.lines(l).rows[r] == (if r < s.h && s.row <= r < s.row
                + l.len() {
                cells_of(l[r - s.row]).take(s.w) + s.rows[r].skip(s.w)
            } else {
                s.rows[r]
            }),
    decreases l.len(),
{
    if l.len() > 0 {
        let init = l.drop_last();
        let t = s.lines(init);
        assert forall|i: int| 0 <= i < init.len() implies (#[trigger] init[i]).len() >= s.w by {
            assert(l[i].len() >= s.w);
        }
        lemma_lines_rows(s, init);
        lemma_lines_shape(s, init);
        assert(l.last().len() >= s.w);
        let u = t.line(l.last());
        assert forall|r: int| 0 <= r < FRAME_H implies #[trigger] s.lines(l).rows[r] == (if r < s.h
            && s.row <= r < s.row + l.len() {
            cells_of(l[r - s.row]).take(s.w) + s.rows[r].skip(s.w)
        } else {
            s.rows[r]
        }) by {
            if r == t.row && r < s.h {
                assert(u.rows[r] =~= cells_of(l.last()).take(s.w) + s.rows[r].skip(s.w));
            } else {
                assert(u.rows[r] == t.rows[r]);
            }
        }
    }
}

/// `s` in exactly `width` columns: padded with blanks, or cut short with three dots. Where there
/// is no room for the dots, it is just cut off.
pub open spec fn padded(s: Seq<char>, width: int) -> Seq<char> {
    if s.len() <= width {
        s + repeated(' ', width - s.len())
    } else if width < 3 {
        s.take(width)
    } else {
        s.take(width - 3) + seq!['.', '.', '.']
    }
}

/// A bar of `width` columns, of which the first `filled` are full.
pub open spec fn bar(filled: int, width: int) -> Seq<char> {
    Seq::new(width as nat, |i: int| if i < filled { '█' } else { '░' })
}

/// The top edge of a frame of `w` columns.
pub open spec fn header_line(w: int) -> Seq<char> {
    seq!['┌'] + repeated('─', w - 2) + seq!['┐']
}

/// `text` in the middle of a frame of `w` columns, cut off where it does not fit. Of an odd
/// number of blanks the right side has one more.
pub open spec fn centered_line(text: Seq<char>, w: int) -> Seq<char> {
    let shown = if text.len() <= w - 2 { text } else { text.take(w - 2) };
    let blanks = w - 2 - shown.len();
    seq!['│'] + repeated(' ', blanks / 2) + shown + repeated(' ', blanks - blanks / 2) + seq!['│']
}

/// A divider of `w` columns, with a junction where the name column of `nc` columns ends.
pub open spec fn divider_line(style: DivStyle, nc: int, w: int) -> Seq<char> {
    let (l, m, r) = match style {
        DivStyle::Top => ('├', '┬', '┤'),
        DivStyle::Mid => ('├', '┼', '┤'),
        DivStyle::Bot => ('└', '┴', '┘'),
    };
    Seq::new(
        w as nat,
        |i: int|
            if i == 0 {
                l
            } else if i == w - 1 {
                r
            } else if i == nc + 3 {
                m
            } else {
                '─'
            },
    )
}

/// A row of two columns.
pub open spec fn framed(left: Seq<char>, right: Seq<char>) -> Seq<char> {
    seq!['│', ' '] + left + seq![' ', '│', ' '] + right + seq![' ', '│']
}

/// A name and its data, in columns of `nc` and `dc`.
pub open spec fn row_line(name: Seq<char>, data: Seq<char>, nc: int, dc: int) -> Seq<char> {
    framed(padded(name, nc), padded(data, dc))
}

/// `n` rows with nothing in their columns, or none where `n` is negative.
pub open spec fn empty_lines(n: int, nc: int, dc: int) -> Seq<Seq<char>> {
    Seq::new(if n > 0 { n as nat } else { 0 }, |i: int| row_line(seq![], seq![], nc, dc))
}

/// A name and a bar, in columns of `nc` and `dc`.
pub open spec fn bar_line(name: Seq<char>, filled: int, nc: int, dc: int) -> Seq<char> {
    framed(padded(name, nc), bar(filled, dc))
}

/// A padded string is as wide as it was asked to be.
pub proof fn lemma_padded_len(s: Seq<char>, width: int)
    requires
        width >= 0,
    ensures
        padded(s, width).len() == width,
        s.len() <= width ==> padded(s, width).take(s.len() as int) == s,
{
    if s.len() <= width {
        assert(padded(s, width).take(s.len() as int) =~= s);
    }
}

/// A row is as wide as its two columns and the seven characters around them.
pub proof fn lemma_row_len(name: Seq<char>, data: Seq<char>, filled: int, nc: int, dc: int)
    requires
        nc >= 0,
        dc >= 0,
    ensures
        row_line(name, data, nc, dc).len() == nc + dc + 7,
        bar_line(name, filled, nc, dc).len() == nc + dc + 7,
{
    lemma_padded_len(name, nc);
    lemma_padded_len(data, dc);
}

/// The edges, the titles and the dividers are as wide as the frame.
pub proof fn lemma_edge_len(text: Seq<char>, style: DivStyle, nc: int, w: int)
    requires
        w >= 2,
    ensures
        header_line(w).len() == w,
        centered_line(text, w).len() == w,
        divider_line(style, nc, w).len() == w,
{
}

/// The bytes of a row.
pub open spec fn line_bytes(line: Seq<Cell>) -> Seq<u8>
    decreases line.len(),
{
    if line.len() == 0 {
        seq![]
    } else {
        line_bytes(line.drop_last()) + line.last()@
    }
}

/// The bytes of some rows, with a line feed between each two.
pub open spec fn screen_bytes(rows: Seq<Seq<Cell>>) -> Seq<u8>
    decreases rows.len(),
{
    if rows.len() == 0 {
        seq![]
    } else if rows.len() == 1 {
        line_bytes(rows[0])
    } else {
        screen_bytes(rows.drop_last()) + seq![LF] + line_bytes(rows.last())
    }
}

/// Lines of text, with a line feed between each two.
pub open spec fn joined(lines: Seq<Seq<char>>) -> Seq<char>
    decreases lines.len(),
{
    if lines.len() == 0 {
        seq![]
    } else if lines.len() == 1 {
        lines[0]
    } else {
        joined(lines.drop_last()) + seq!['\n'] + lines.last()
    }
}

/// Encoding goes character by character.
pub proof fn lemma_encode_append(a: Seq<char>, b: Seq<char>)
    ensures
        encode_utf8(a + b) == encode_utf8(a) + encode_utf8(b),
    decreases a.len(),
{
    if a.len() == 0 {
        assert(a + b =~= b);
        assert(encode_utf8(a) + encode_utf8(b) =~= encode_utf8(b));
    } else {
        assert((a + b).drop_first() =~= a.drop_first() + b);
        lemma_encode_append(a.drop_first(), b);
        assert(encode_utf8(a + b) =~= encode_utf8(a) + encode_utf8(b));
    }
}

/// The bytes of a row of text are its encoding.
pub proof fn lemma_line_bytes_text(s: Seq<char>)
    ensures
        line_bytes(cells_of(s)) == encode_utf8(s),
    decreases s.len(),
{
    if s.len() > 0 {
        let init = s.drop_last();
        lemma_line_bytes_text(init);
        assert(cells_of(s).drop_last() =~= cells_of(init));
        assert(s =~= init + seq![s.last()]);
        lemma_encode_append(init, seq![s.last()]);
        assert(seq![s.last()].drop_first() =~= seq![]);
        assert(encode_utf8(seq![]) =~= seq![]);
        lemma_cell_of(s.last());
        assert(encode_utf8(seq![s.last()]) =~= cell_of(s.last())@);
    }
}

/// What is serialized of rows of text is the encoding of that text, with its lines joined.
pub proof fn lemma_screen_bytes_text(rows: Seq<Seq<Cell>>, lines: Seq<Seq<char>>)
    requires
        rows.len() == lines.len(),
        forall|i: int| 0 <= i < rows.len() ==> #[trigger] rows[i] == cells_of(lines[i]),
    ensures
        screen_bytes(rows) == encode_utf8(joined(lines)),
    decreases rows.len(),
{
    if rows.len() > 0 {
        lemma_line_bytes_text(lines.last());
        assert(rows.last() == cells_of(lines.last()));
        if rows.len() > 1 {
            let a = joined(lines.drop_last());
            lemma_screen_bytes_text(rows.drop_last(), lines.drop_last());
            lemma_encode_append(a, seq!['\n']);
            lemma_encode_append(a + seq!['\n'], lines.last());
            assert(encode_utf8(seq!['\n']) == seq![LF]) by {
                is_ascii_chars_encode_utf8(seq!['\n']);
                assert(encode_utf8(seq!['\n']) =~= seq![LF]);
            }
        }
    }
}

/// The first `c` cells of a row take no more bytes than the row.
proof fn lemma_line_bytes_prefix(line: Seq<Cell>, c: int)
    requires
        0 <= c <= line.len(),
    ensures
        line_bytes(line.take(c)).len() <= line_bytes(line).len(),
    decreases line.len() - c,
{
    if c < line.len() {
        assert(line.take(c + 1).drop_last() =~= line.take(c));
        lemma_line_bytes_prefix(line, c + 1);
    } else {
        assert(line.take(c) =~= line);
    }
}

/// The first `r` rows, with the line feed that follows them, take no more bytes than all rows.
proof fn lemma_screen_bytes_prefix(rows: Seq<Seq<Cell>>, r: int)
    requires
        0 < r <= rows.len(),
    ensures
        screen_bytes(rows.take(r)).len() + (if r < rows.len() { 1int } else { 0 })
            <= screen_bytes(rows).len(),
    decreases rows.len() - r,
{
    if r < rows.len() {
        assert(rows.take(r + 1).drop_last() =~= rows.take(r));
        lemma_screen_bytes_prefix(rows, r + 1);
    } else {
        assert(rows.take(r) =~= rows);
    }
}

/// A row of cells takes at most four bytes for each.
proof fn lemma_line_bytes_bound(line: Seq<Cell>)
    requires
        forall|c: int| 0 <= c < line.len() ==> (#[trigger] line[c]).wf(),
    ensures
        line_bytes(line).len() <= 4 * line.len(),
    decreases line.len(),
{
    if line.len() > 0 {
        lemma_line_bytes_bound(line.drop_last());
        assert(line[line.len() - 1].wf());
    }
}

/// Rows of `w` cells take at most `4 * w + 1` bytes each.
proof fn lemma_screen_bytes_bound(rows: Seq<Seq<Cell>>, w: int)
    requires
        forall|r: int| 0 <= r < rows.len() ==> (#[trigger] rows[r]).len() == w,
        forall|r: int, c: int| 0 <= r < rows.len() && 0 <= c < w ==> (#[trigger] rows[r][c]).wf(),
    ensures
        rows.len() > 0 ==> screen_bytes(rows).len() <= rows.len() * (4 * w + 1) - 1,
    decreases rows.len(),
{
    if rows.len() > 0 {
        let last = rows.len() - 1;
        assert forall|c: int| 0 <= c < w implies (#[trigger] rows.last()[c]).wf() by {
            assert(rows[last][c].wf());
        }
        lemma_line_bytes_bound(rows.last());
        assert forall|r: int, c: int| 0 <= r < last && 0 <= c < w implies (
        #[trigger] rows.drop_last()[r][c]).wf() by {
            assert(rows[r][c].wf());
        }
        lemma_screen_bytes_bound(rows.drop_last(), w);
        let n = rows.len() as int;
        assert(n * (4 * w + 1) == (n - 1) * (4 * w + 1) + (4 * w + 1)) by (nonlinear_arith);
    }
}

/// One display column: a character as UTF-8 bytes.
#[derive(Clone, Copy, PartialEq, Eq)]
pub struct Cell {
    pub b: [u8; 4],
    pub len: u8,
}

impl View for Cell {
    type V = Seq<u8>;

    open spec fn view(&self) -> Seq<u8> {
        self.b@.take(self.len as int)
    }
}

impl Cell {
    /// The length counts bytes of the cell.
    pub open spec fn wf(self) -> bool {
        self.len <= 4
    }

    /// The cell shows `ch`, and its unused bytes are zero.
    pub open spec fn shows(self, ch: char) -> bool {
        &&& 1 <= self.len <= 4
        &&& self@ == encode_scalar(ch as u32)
        &&& forall|i: int| self.len <= i < 4 ==> #[trigger] self.b[i] == 0
    }

    /// Cells that show characters are equal exactly where the characters are.
    pub proof fn lemma_equal(a: Cell, b: Cell, c: char, d: char)
        requires
            a.shows(c),
            b.shows(d),
        ensures
            a == b <==> c == d,
    {
        if a == b {
            lemma_line_bytes_text(seq![c]);
            lemma_line_bytes_text(seq![d]);
            lemma_cell_of(c);
            lemma_cell_of(d);
            assert(encode_utf8(seq![c]) =~= encode_utf8(seq![d])) by {
                reveal_with_fuel(line_bytes, 2);
                assert(cells_of(seq![c]).drop_last() =~= seq![]);
                assert(cells_of(seq![d]).drop_last() =~= seq![]);
            }
            encode_utf8_decode_utf8(seq![c]);
            encode_utf8_decode_utf8(seq![d]);
            assert(seq![c][0] == seq![d][0]);
        }
        if c == d {
            assert(a@.len() == a.len && b@.len() == b.len);
            assert forall|i: int| 0 <= i < 4 implies #[trigger] a.b@[i] == b.b@[i] by {
                if i < a.len {
                    assert(a@[i] == b@[i]);
                } else {
                    assert(a.b[i] == 0 && b.b[i] == 0);
                }
            }
            assert(a.b@ =~= b.b@);
            assert(a.b =~= b.b);
        }
    }

    /// A blank cell.
    pub fn space() -> (c: Cell)
        ensures
            c.wf(),
            c == cell_of(' '),
            c.shows(' '),
    {
        Cell::from_char(' ')
    }

    /// The cell that shows `ch`; its unused bytes are zero.
    pub fn from_char(ch: char) -> (c: Cell)
        ensures
            c.wf(),
            c == cell_of(ch),
            c.shows(ch),
    {
        let code: u32 = ch as u32;
        proof {
            char_is_scalar(ch);
        }
        let last: u8 = 0x80 | (code & 0x3f) as u8;
        let second: u8 = 0x80 | ((code >> 6) & 0x3f) as u8;
        let third: u8 = 0x80 | ((code >> 12) & 0x3f) as u8;
        let c = if code <= 0x7f {
            Cell { b: [(code & 0x7f) as u8, 0, 0, 0], len: 1 }
        } else if code <= 0x7ff {
            Cell { b: [0xc0 | ((code >> 6) & 0x1f) as u8, last, 0, 0], len: 2 }
        } else if code <= 0xffff {
            Cell { b: [0xe0 | ((code >> 12) & 0x0f) as u8, second, last, 0], len: 3 }
        } else {
            Cell { b: [0xf0 | ((code >> 18) & 0x7) as u8, third, second, last], len: 4 }
        };
        assert(c@ =~= encode_scalar(code));
        proof {
            lemma_cell_of(ch);
            Cell::lemma_equal(c, cell_of(ch), ch, ch);
        }
        c
    }
}

/// Where a divider stands in the report.
#[derive(Clone, Copy)]
pub enum DivStyle {
    Top,
    Mid,
    Bot,
}

/// A grid of cells with a cursor.
pub struct Frame {
    cells: [Cell; FRAME_CELLS],
    pub w: usize,
    pub h: usize,
    pub col: usize,
    pub row: usize,
}

impl View for Frame {
    type V = Screen;

    closed spec fn view(&self) -> Screen {
        Screen {
            w: self.w as int,
            h: self.h as int,
            col: self.col as int,
            row: self.row as int,
            rows: self.rows(),
        }
    }
}

impl Frame {
    spec fn rows(&self) -> Seq<Seq<Cell>> {
        Seq::new(
            FRAME_H as nat,
            |r: int| Seq::new(FRAME_W as nat, |c: int| self.cells[r * FRAME_W + c]),
        )
    }

    /// What is shown fits the grid, and each cell of the grid is in order.
    pub open spec fn wf(&self) -> bool {
        self@.wf()
    }

    /// A blank frame of `w` columns and `h` rows, as far as the grid reaches.
    pub fn new(w: usize, h: usize) -> (f: Self)
        ensures
            f.wf(),
            f@ == blank_screen(w as int, h as int),
    {
        let blank: Cell = Cell::space();
        let f = Frame {
            cells: [blank; FRAME_CELLS],
            w: if w <= FRAME_W { w } else { FRAME_W },
            h: if h <= FRAME_H { h } else { FRAME_H },
            col: 0,
            row: 0,
        };
        assert(f.rows() =~~= blank_screen(w as int, h as int).rows);
        f
    }

    /// Writes one cell at the cursor, where the cursor is inside the frame.
    pub fn put(&mut self, cell: Cell)
        requires
            old(self).wf(),
            cell.wf(),
        ensures
            final(self).wf(),
            final(self)@ == old(self)@.put(seq![cell]),
    {
        if self.col < self.w && self.row < self.h {
            self.cells[self.row * FRAME_W + self.col] = cell;
            self.col = self.col + 1;
            proof {
                let before = old(self)@;
                let after = before.put(seq![cell]);
                assert forall|r: int| 0 <= r < FRAME_H implies #[trigger] self.rows()[r]
                    =~= after.rows[r] by {
                }
                assert(self.rows() =~= after.rows);
                lemma_put_wf(before, seq![cell]);
            }
        }
    }

    /// Writes one character.
    pub fn put_char(&mut self, ch: char)
        requires
            old(self).wf(),
        ensures
            final(self).wf(),
            final(self)@ == old(self)@.put(cells_of(seq![ch])),
    {
        let cell: Cell = Cell::from_char(ch);
        assert(cells_of(seq![ch]) =~= seq![cell]);
        self.put(cell);
    }

    /// Writes one character `n` times.
    pub fn fill_char(&mut self, ch: char, n: usize)
        requires
            old(self).wf(),
        ensures
            final(self).wf(),
            final(self)@ == old(self)@.put(cells_of(repeated(ch, n as int))),
    {
        let cell: Cell = Cell::from_char(ch);
        let ghost start = self@;
        let mut i: usize = 0;
        proof {
            assert(repeated(ch, 0) =~= seq![]);
            lemma_put_nothing(start);
        }
        while i < n
            invariant
                i <= n,
                self.wf(),
                start.wf(),
                cell.wf(),
                cell == cell_of(ch),
                self@ == start.put(cells_of(repeated(ch, i as int))),
            decreases n - i,
        {
            self.put(cell);
            proof {
                lemma_put_put(start, cells_of(repeated(ch, i as int)), seq![cell]);
                assert(cells_of(repeated(ch, i as int)) + seq![cell] =~= cells_of(
                    repeated(ch, i + 1),
                ));
            }
            i = i + 1;
        }
    }

    /// Writes `n` blanks.
    pub fn fill_spaces(&mut self, n: usize)
        requires
            old(self).wf(),
        ensures
            final(self).wf(),
            final(self)@ == old(self)@.put(cells_of(repeated(' ', n as int))),
    {
        self.fill_char(' ', n);
    }

    /// Writes at most the first `max` characters of a string.
    fn put_prefix(&mut self, s: &str, max: usize)
        requires
            old(self).wf(),
        ensures
            final(self).wf(),
            final(self)@ == old(self)@.put(
                cells_of(if s@.len() <= max { s@ } else { s@.take(max as int) }),
            ),
    {
        broadcast use group_string_axioms;

        let ghost start = self@;
        let mut rest = s.chars();
        let mut i: usize = 0;
        let mut more: bool = true;
        proof {
            assert(s@.take(0) =~= seq![]);
            assert(s@.skip(0) =~= s@);
            lemma_put_nothing(start);
        }
        while i < max && more
            invariant
                i <= max,
                i <= s@.len(),
                self.wf(),
                start.wf(),
                rest.remaining() == s@.skip(i as int),
                rest.obeys_prophetic_iter_laws(),
                self@ == start.put(cells_of(s@.take(i as int))),
                !more ==> i == s@.len(),
            decreases max - i + (if more { 1int } else { 0int }),
        {
            match rest.next() {
                Some(ch) => {
                    self.put_char(ch);
                    proof {
                        lemma_put_text(start, s@.take(i as int), seq![ch]);
                        assert(s@.take(i as int) + seq![ch] =~= s@.take(i + 1));
                        assert(s@.skip(i as int).drop_first() =~= s@.skip(i + 1));
                    }
                    i = i + 1;
                },
                None => {
                    more = false;
                },
            }
        }
        assert(s@.take(s@.len() as int) =~= s@);
    }

    /// Writes a string.
    pub fn put_str(&mut self, s: &str)
        requires
            old(self).wf(),
        ensures
            final(self).wf(),
            final(self)@ == old(self)@.put(cells_of(s@)),
    {
        self.put_prefix(s, s.unicode_len());
    }

    /// Moves the cursor to the start of the next row.
    pub fn newline(&mut self)
        requires
            old(self).wf(),
            old(self)@.row < usize::MAX,
        ensures
            final(self).wf(),
            final(self)@ == old(self)@.newline(),
    {
        self.col = 0;
        self.row = self.row + 1;
    }

    /// Moves the cursor to the first column of the first row.
    pub fn home(&mut self)
        requires
            old(self).wf(),
        ensures
            final(self).wf(),
            final(self)@ == (Screen { col: 0, row: 0, ..old(self)@ }),
    {
        self.col = 0;
        self.row = 0;
    }

    /// Draws the top edge.
    pub fn put_header(&mut self)
        requires
            old(self).wf(),
            old(self)@.w >= 2,
            old(self)@.row < usize::MAX,
        ensures
            final(self).wf(),
            final(self)@ == old(self)@.line(header_line(old(self)@.w)),
    {
        let ghost start = self@;
        let iw: usize = self.w - 2;
        self.put_char('┌');
        self.fill_char('─', iw);
        self.put_char('┐');
        proof {
            let edge = repeated('─', iw as int);
            lemma_put_text(start, seq!['┌'], edge);
            lemma_put_text(start, seq!['┌'] + edge, seq!['┐']);
        }
        self.newline();
    }

    /// Draws a row with `text` in its middle.
    pub fn put_centered(&mut self, text: &str)
        requires
            old(self).wf(),
            old(self)@.w >= 2,
            old(self)@.row < usize::MAX,
        ensures
            final(self).wf(),
            final(self)@ == old(self)@.line(centered_line(text@, old(self)@.w)),
    {
        let ghost start = self@;
        let iw: usize = self.w - 2;
        let count: usize = text.unicode_len();
        let tlen: usize = if count < iw { count } else { iw };
        let pl: usize = (iw - tlen) / 2;
        let pr: usize = iw - tlen - pl;
        self.put_char('│');
        self.fill_spaces(pl);
        self.put_prefix(text, iw);
        self.fill_spaces(pr);
        self.put_char('│');
        proof {
            let edge = seq!['│'];
            let shown = if text@.len() <= iw { text@ } else { text@.take(iw as int) };
            let a = repeated(' ', pl as int);
            let b = repeated(' ', pr as int);
            lemma_put_text(start, edge, a);
            lemma_put_text(start, edge + a, shown);
            lemma_put_text(start, edge + a + shown, b);
            lemma_put_text(start, edge + a + shown + b, edge);
        }
        self.newline();
    }

    /// Draws a divider with a junction where the name column ends.
    pub fn put_divider(&mut self, style: DivStyle, nc: usize)
        requires
            old(self).wf(),
            old(self)@.w >= 2,
            old(self)@.row < usize::MAX,
            nc + 2 <= usize::MAX,
        ensures
            final(self).wf(),
            final(self)@ == old(self)@.line(divider_line(style, nc as int, old(self)@.w)),
    {
        let ghost start = self@;
        let ghost line = divider_line(style, nc as int, start.w);
        let (l, m, r) = match style {
            DivStyle::Top => ('├', '┬', '┤'),
            DivStyle::Mid => ('├', '┼', '┤'),
            DivStyle::Bot => ('└', '┴', '┘'),
        };
        let iw: usize = self.w - 2;
        let junc: usize = nc + 2;
        self.put_char(l);
        assert(seq![l] =~= line.take(1));
        let mut i: usize = 0;
        while i < iw
            invariant
                i <= iw,
                iw == start.w - 2,
                junc == nc + 2,
                self.wf(),
                start.wf(),
                line == divider_line(style, nc as int, start.w),
                m == (match style {
                    DivStyle::Top => '┬',
                    DivStyle::Mid => '┼',
                    DivStyle::Bot => '┴',
                }),
                self@ == start.put(cells_of(line.take(i + 1))),
            decreases iw - i,
        {
            let ch: char = if i == junc { m } else { '─' };
            self.put_char(ch);
            proof {
                lemma_put_text(start, line.take(i + 1), seq![ch]);
                assert(line.take(i + 1) + seq![ch] =~= line.take(i + 2));
            }
            i = i + 1;
        }
        self.put_char(r);
        proof {
            lemma_put_text(start, line.take(iw + 1), seq![r]);
            assert(line.take(iw + 1) + seq![r] =~= line);
        }
        self.newline();
    }

    /// Writes a string in exactly `width` columns.
    pub fn put_str_padded(&mut self, s: &str, width: usize)
        requires
            old(self).wf(),
        ensures
            final(self).wf(),
            final(self)@ == old(self)@.put(cells_of(padded(s@, width as int))),
    {
        let ghost start = self@;
        let cc: usize = s.unicode_len();
        if cc <= width {
            self.put_str(s);
            self.fill_spaces(width - cc);
            proof {
                lemma_put_text(start, s@, repeated(' ', width - cc));
            }
        } else if width < 3 {
            self.put_prefix(s, width);
        } else {
            self.put_prefix(s, width - 3);
            self.fill_char('.', 3);
            proof {
                assert(repeated('.', 3) =~= seq!['.', '.', '.']);
                lemma_put_text(start, s@.take(width - 3), repeated('.', 3));
            }
        }
    }

    /// Writes a bar of `width` columns, of which at most the first `filled` are full.
    fn put_bar(&mut self, filled: usize, width: usize)
        requires
            old(self).wf(),
        ensures
            final(self).wf(),
            final(self)@ == old(self)@.put(cells_of(bar(filled as int, width as int))),
    {
        let ghost start = self@;
        let full: usize = if filled < width { filled } else { width };
        self.fill_char('█', full);
        self.fill_char('░', width - full);
        proof {
            let a = repeated('█', full as int);
            let b = repeated('░', width - full);
            lemma_put_text(start, a, b);
            assert(a + b =~= bar(filled as int, width as int));
        }
    }

    /// Draws a name and its data.
    pub fn put_row(&mut self, name: &str, data: &str, nc: usize, dc: usize)
        requires
            old(self).wf(),
            old(self)@.row < usize::MAX,
        ensures
            final(self).wf(),
            final(self)@ == old(self)@.line(row_line(name@, data@, nc as int, dc as int)),
    {
        let ghost start = self@;
        self.put_left(name, nc);
        self.put_str_padded(data, dc);
        self.put_right();
        proof {
            let left = seq!['│', ' '] + padded(name@, nc as int) + seq![' ', '│', ' '];
            let right = padded(data@, dc as int);
            lemma_put_text(start, left, right);
            lemma_put_text(start, left + right, seq![' ', '│']);
        }
        self.newline();
    }

    /// Writes the name column, up to where the data column begins.
    fn put_left(&mut self, name: &str, nc: usize)
        requires
            old(self).wf(),
        ensures
            final(self).wf(),
            final(self)@ == old(self)@.put(
                cells_of(seq!['│', ' '] + padded(name@, nc as int) + seq![' ', '│', ' ']),
            ),
    {
        let ghost start = self@;
        self.put_char('│');
        self.put_char(' ');
        self.put_str_padded(name, nc);
        self.put_char(' ');
        self.put_char('│');
        self.put_char(' ');
        proof {
            let left = padded(name@, nc as int);
            let a = seq!['│', ' '];
            lemma_put_text(start, seq!['│'], seq![' ']);
            assert(seq!['│'] + seq![' '] =~= a);
            lemma_put_text(start, a, left);
            lemma_put_text(start, a + left, seq![' ']);
            lemma_put_text(start, a + left + seq![' '], seq!['│']);
            lemma_put_text(start, a + left + seq![' '] + seq!['│'], seq![' ']);
            assert(a + left + seq![' '] + seq!['│'] + seq![' '] =~= a + left + seq![
                ' ',
                '│',
                ' ',
            ]);
        }
    }

    /// Writes the right edge of a row.
    fn put_right(&mut self)
        requires
            old(self).wf(),
        ensures
            final(self).wf(),
            final(self)@ == old(self)@.put(cells_of(seq![' ', '│'])),
    {
        let ghost start = self@;
        self.put_char(' ');
        self.put_char('│');
        proof {
            lemma_put_text(start, seq![' '], seq!['│']);
            assert(seq![' '] + seq!['│'] =~= seq![' ', '│']);
        }
    }

    /// Draws a name and the text of a buffer.
    pub fn put_row_buf<const N: usize>(&mut self, name: &str, data: &Buf<N>, nc: usize, dc: usize)
        requires
            old(self).wf(),
            old(self)@.row < usize::MAX,
        ensures
            final(self).wf(),
            final(self)@ == old(self)@.line(row_line(name@, data.text(), nc as int, dc as int)),
    {
        self.put_row(name, data.as_str(), nc, dc);
    }

    /// Draws a name and a bar of which `filled` columns are full, or all where it has fewer.
    pub fn put_bar_row(&mut self, name: &str, filled: usize, nc: usize, dc: usize)
        requires
            old(self).wf(),
            old(self)@.row < usize::MAX,
        ensures
            final(self).wf(),
            final(self)@ == old(self)@.line(bar_line(name@, filled as int, nc as int, dc as int)),
    {
        let ghost start = self@;
        self.put_left(name, nc);
        self.put_bar(filled, dc);
        self.put_right();
        proof {
            let left = seq!['│', ' '] + padded(name@, nc as int) + seq![' ', '│', ' '];
            let right = bar(filled as int, dc as int);
            lemma_put_text(start, left, right);
            lemma_put_text(start, left + right, seq![' ', '│']);
        }
        self.newline();
    }

    /// Draws a row with nothing in its columns.
    pub fn put_empty_row(&mut self, nc: usize, dc: usize)
        requires
            old(self).wf(),
            old(self)@.row < usize::MAX,
        ensures
            final(self).wf(),
            final(self)@ == old(self)@.line(row_line(seq![], seq![], nc as int, dc as int)),
    {
        proof {
            reveal_strlit("");
            assert(""@ =~= seq![]);
        }
        self.put_row("", "", nc, dc);
    }

    /// Draws rows with nothing in their columns, as far as the row before `end`.
    pub fn put_empty_rows(&mut self, end: usize, nc: usize, dc: usize)
        requires
            old(self).wf(),
        ensures
            final(self).wf(),
            final(self)@ == old(self)@.lines(
                empty_lines(end - old(self)@.row, nc as int, dc as int),
            ),
    {
        let ghost start = self@;
        let ghost mut n: int = 0;
        assert(empty_lines(0, nc as int, dc as int) =~= seq![]);
        while self.row < end
            invariant
                self.wf(),
                start.wf(),
                0 <= n,
                self@.row == start.row + n,
                n > 0 ==> self@.row <= end,
                self@ == start.lines(empty_lines(n, nc as int, dc as int)),
            decreases end - self.row,
        {
            self.put_empty_row(nc, dc);
            proof {
                n = n + 1;
                assert(empty_lines(n, nc as int, dc as int).drop_last() =~= empty_lines(
                    n - 1,
                    nc as int,
                    dc as int,
                ));
            }
        }
        assert(empty_lines(end - start.row, nc as int, dc as int) =~= empty_lines(
            n,
            nc as int,
            dc as int,
        ));
    }

    /// A frame takes at most 38479 bytes.
    pub proof fn lemma_bytes_bound(&self)
        requires
            self.wf(),
        ensures
            screen_bytes(self@.shown()).len() <= 38479,
    {
        let rows = self@.shown();
        let (w, h) = (self@.w, self@.h);
        assert forall|r: int, c: int| 0 <= r < h && 0 <= c < w implies (
        #[trigger] rows[r][c]).wf() by {
            assert(self@.rows[r][c].wf());
        }
        lemma_screen_bytes_bound(rows, w);
        assert(h * (4 * w + 1) <= 80 * 481) by (nonlinear_arith)
            requires
                0 <= h <= 80,
                0 <= w <= 120,
        ;
    }

    /// Writes the frame to `out` as bytes and returns how many they are. No line feed follows
    /// the last row, so that a frame that fills a screen does not scroll it.
    pub fn write_full(&self, out: &mut [u8]) -> (n: usize)
        requires
            self.wf(),
            screen_bytes(self@.shown()).len() <= old(out)@.len(),
        ensures
            n == screen_bytes(self@.shown()).len(),
            final(out)@ == screen_bytes(self@.shown()) + old(out)@.skip(n as int),
    {
        let ghost rows = self@.shown();
        let ghost all = screen_bytes(rows);
        let ghost before = out@;
        let ghost mut done: Seq<u8> = seq![];
        let mut pos: usize = 0;
        let mut row: usize = 0;
        assert(out@ =~= done + before.skip(0));
        while row < self.h
            invariant
                row <= self.h,
                self.wf(),
                rows == self@.shown(),
                all == screen_bytes(rows),
                all.len() <= before.len(),
                pos == done.len(),
                out@.len() == before.len(),
                out@ == done + before.skip(pos as int),
                row == 0 ==> done.len() == 0,
                row > 0 ==> done == screen_bytes(rows.take(row as int)) + (if row < self.h {
                    seq![LF]
                } else {
                    seq![]
                }),
            decreases self.h - row,
        {
            let base: usize = row * FRAME_W;
            let ghost head = done;
            let ghost line = rows[row as int];
            let mut col: usize = 0;
            proof {
                assert(line.take(0) =~= seq![]);
                assert(head + line_bytes(line.take(0)) =~= head);
                assert(rows.take(row + 1).drop_last() =~= rows.take(row as int));
                lemma_screen_bytes_prefix(rows, row + 1);
                assert(screen_bytes(rows.take(row + 1)) =~= head + line_bytes(line)) by {
                    if row == 0 {
                        assert(rows.take(1)[0] == line);
                    }
                }
            }
            while col < self.w
                invariant
                    col <= self.w,
                    row < self.h,
                    base == row * FRAME_W,
                    self.wf(),
                    rows == self@.shown(),
                    line == rows[row as int],
                    (head + line_bytes(line)).len() <= before.len(),
                    pos == done.len(),
                    out@.len() == before.len(),
                    out@ == done + before.skip(pos as int),
                    done == head + line_bytes(line.take(col as int)),
                decreases self.w - col,
            {
                let cell: Cell = self.cells[base + col];
                let len: usize = cell.len as usize;
                let ghost at = done;
                let mut k: usize = 0;
                proof {
                    assert(self@.rows[row as int][col as int] == cell);
                    assert(cell.wf());
                    assert(line[col as int] == cell);
                    assert(line.take(col + 1).drop_last() =~= line.take(col as int));
                    lemma_line_bytes_prefix(line, col + 1);
                    assert(cell@.take(0) =~= seq![]);
                    assert(at + cell@.take(0) =~= at);
                }
                while k < len
                    invariant
                        k <= len,
                        len == cell.len,
                        cell.wf(),
                        at.len() + len <= before.len(),
                        pos == done.len(),
                        out@.len() == before.len(),
                        out@ == done + before.skip(pos as int),
                        done == at + cell@.take(k as int),
                    decreases len - k,
                {
                    let ghost old_out = out@;
                    out[pos] = cell.b[k];
                    pos = pos + 1;
                    proof {
                        done = done.push(cell.b[k as int]);
                        assert(done =~= at + cell@.take(k + 1));
                        assert(out@ =~= done + before.skip(pos as int));
                    }
                    k = k + 1;
                }
                proof {
                    assert(cell@.take(len as int) =~= cell@);
                    assert(done =~= head + line_bytes(line.take(col + 1)));
                }
                col = col + 1;
            }
            proof {
                assert(line.take(col as int) =~= line);
            }
            if row + 1 < self.h {
                out[pos] = LF;
                pos = pos + 1;
                proof {
                    done = done.push(LF);
                    assert(out@ =~= done + before.skip(pos as int));
                }
            }
            row = row + 1;
            proof {
                assert(done =~= screen_bytes(rows.take(row as int)) + (if row < self.h {
                    seq![LF]
                } else {
                    seq![]
                }));
            }
        }
        proof {
            assert(rows.take(row as int) =~= rows);
            assert(done =~= all);
        }
        pos
    }

    /// Writes the frame to `out` as bytes, with a line feed behind the last row too, and returns
    /// how many they are.
    pub fn write_lines(&self, out: &mut [u8]) -> (n: usize)
        requires
            self.wf(),
            screen_bytes(self@.shown()).len() < old(out)@.len(),
        ensures
            n == screen_bytes(self@.shown()).len() + 1,
            final(out)@ == screen_bytes(self@.shown()) + seq![LF] + old(out)@.skip(n as int),
    {
        let ghost before = out@;
        let n: usize = self.write_full(out);
        out[n] = LF;
        assert(out@ =~= screen_bytes(self@.shown()) + seq![LF] + before.skip(n + 1));
        n + 1
    }
}

} // verus!
