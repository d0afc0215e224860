//! Cells, the lines of a report, and how a frame takes and gives them.

use crate::buf::Buf;
use crate::frame;
use crate::frame::{Cell, DivStyle, Frame, Screen};
use vstd::prelude::*;
use vstd::utf8::*;

verus! {

/// The character in column `i` of a text in `width` columns: the text and then blanks, or the
/// start of it and three dots, or just the start of it where the dots have no room.
pub open spec fn fitted(s: Seq<char>, width: int, i: int) -> char {
    if s.len() > width && width >= 3 && i >= width - 3 {
        '.'
    } else if i < s.len() {
        s[i]
    } else {
        ' '
    }
}

/// A line of two columns: edges and blanks around the name in `nc` columns and the data in `dc`.
pub open spec fn is_row(line: Seq<char>, name: Seq<char>, nc: int, dc: int) -> bool {
    &&& line.len() == nc + dc + 7
    &&& line[0] == '│'
    &&& line[1] == ' '
    &&& forall|i: int| 0 <= i < nc ==> #[trigger] line[2 + i] == fitted(name, nc, i)
    &&& line[nc + 2] == ' '
    &&& line[nc + 3] == '│'
    &&& line[nc + 4] == ' '
    &&& line[nc + dc + 5] == ' '
    &&& line[nc + dc + 6] == '│'
}

/// A row shows its name and its data in their columns.
pub proof fn law_row(name: Seq<char>, data: Seq<char>, nc: int, dc: int)
    requires
        nc >= 0,
        dc >= 0,
    ensures
        is_row(frame::row_line(name, data, nc, dc), name, nc, dc),
        forall|i: int|
            0 <= i < dc ==> #[trigger] frame::row_line(name, data, nc, dc)[nc + 5 + i] == fitted(
                data,
                dc,
                i,
            ),
{
    let line = frame::row_line(name, data, nc, dc);
    let left = frame::padded(name, nc);
    let right = frame::padded(data, dc);
    frame::lemma_row_len(name, data, 0, nc, dc);
    frame::lemma_padded_len(name, nc);
    frame::lemma_padded_len(data, dc);
    assert forall|i: int| 0 <= i < nc implies #[trigger] line[2 + i] == fitted(name, nc, i) by {
        assert(line[2 + i] == left[i]);
    }
    assert forall|i: int| 0 <= i < dc implies #[trigger] line[nc + 5 + i] == fitted(
        data,
        dc,
        i,
    ) by {
        assert(line[nc + 5 + i] == right[i]);
    }
}

/// A row with a bar shows its name, and a bar whose first `filled` columns are full.
pub proof fn law_bar(name: Seq<char>, filled: int, nc: int, dc: int)
    requires
        nc >= 0,
        dc >= 0,
    ensures
        is_row(frame::bar_line(name, filled, nc, dc), name, nc, dc),
        forall|i: int|
            0 <= i < dc ==> #[trigger] frame::bar_line(name, filled, nc, dc)[nc + 5 + i] == (if i
                < filled {
                '█'
            } else {
                '░'
            }),
{
    let line = frame::bar_line(name, filled, nc, dc);
    let left = frame::padded(name, nc);
    let right = frame::bar(filled, dc);
    frame::lemma_row_len(name, seq![], filled, nc, dc);
    frame::lemma_padded_len(name, nc);
    assert forall|i: int| 0 <= i < nc implies #[trigger] line[2 + i] == fitted(name, nc, i) by {
        assert(line[2 + i] == left[i]);
    }
    assert forall|i: int| 0 <= i < dc implies #[trigger] line[nc + 5 + i] == (if i < filled {
        '█'
    } else {
        '░'
    }) by {
        assert(line[nc + 5 + i] == right[i]);
    }
}

/// The top edge has its two corners and a line between them.
pub proof fn law_header(w: int)
    requires
        w >= 2,
    ensures
        frame::header_line(w).len() == w,
        frame::header_line(w)[0] == '┌',
        frame::header_line(w)[w - 1] == '┐',
        forall|i: int| 0 < i < w - 1 ==> #[trigger] frame::header_line(w)[i] == '─',
{
}

/// A title stands between two edges, with as many blanks before it as behind it, or one less, and
/// in full where it fits.
pub proof fn law_centered(text: Seq<char>, w: int)
    requires
        w >= 2,
    ensures
        ({
            let line = frame::centered_line(text, w);
            let n = if text.len() <= w - 2 {
                text.len() as int
            } else {
                w - 2
            };
            let before = (w - 2 - n) / 2;
            &&& line.len() == w
            &&& line[0] == '│'
            &&& line[w - 1] == '│'
            &&& forall|i: int| 0 <= i < before ==> #[trigger] line[1 + i] == ' '
            &&& forall|i: int| 0 <= i < n ==> #[trigger] line[1 + before + i] == text[i]
            &&& forall|i: int| 1 + before + n <= i < w - 1 ==> #[trigger] line[i] == ' '
        }),
{
}

/// A divider has its edges, a line between them, and a junction right over the edge between the two
/// columns of the rows.
pub proof fn law_divider(style: DivStyle, nc: int, w: int)
    requires
        w >= 2,
        nc >= 0,
    ensures
        ({
            let line = frame::divider_line(style, nc, w);
            &&& line.len() == w
            &&& line[0] == (if style is Bot {
                '└'
            } else {
                '├'
            })
            &&& line[w - 1] == (if style is Bot {
                '┘'
            } else {
                '┤'
            })
            &&& forall|i: int| 0 < i < w - 1 && i != nc + 3 ==> #[trigger] line[i] == '─'
            &&& nc + 3 < w - 1 ==> line[nc + 3] == (match style {
                DivStyle::Top => '┬',
                DivStyle::Mid => '┼',
                DivStyle::Bot => '┴',
            })
        }),
{
}

/// Rows that fill a report are rows without a name and data.
pub proof fn law_empty(n: int, nc: int, dc: int, r: int, i: int)
    requires
        nc >= 0,
        dc >= 0,
    ensures
        n >= 0 ==> frame::empty_lines(n, nc, dc).len() == n,
        n < 0 ==> frame::empty_lines(n, nc, dc).len() == 0,
        0 <= r < n ==> is_row(frame::empty_lines(n, nc, dc)[r], seq![], nc, dc),
        0 <= r < n && 0 <= i < dc ==> frame::empty_lines(n, nc, dc)[r][nc + 5 + i] == ' ',
{
    law_row(seq![], seq![], nc, dc);
    if 0 <= r < n && 0 <= i < dc {
        assert(frame::row_line(seq![], seq![], nc, dc)[nc + 5 + i] == fitted(seq![], dc, i));
    }
}

/// A write puts its cells into the row of the cursor, from the cursor on and as far as the frame
/// shows, moves the cursor behind them, and changes no other cell of the grid.
pub proof fn law_put(s: Screen, a: Seq<Cell>)
    requires
        s.wf(),
    ensures
        ({
            let t = s.put(a);
            &&& t.w == s.w
            &&& t.h == s.h
            &&& t.row == s.row
            &&& t.rows.len() == s.rows.len()
            &&& forall|r: int, c: int|
                0 <= r < 80 && 0 <= c < 120 ==> #[trigger] t.rows[r][c] == (if r == s.row && r < s.h
                    && s.col <= c < s.w && c < s.col + a.len() {
                    a[c - s.col]
                } else {
                    s.rows[r][c]
                })
            &&& s.row < s.h && s.col <= s.w && s.col + a.len() <= s.w ==> t.col == s.col + a.len()
            &&& s.row < s.h && s.col <= s.w < s.col + a.len() ==> t.col == s.w
            &&& s.row >= s.h || s.col >= s.w ==> t == s
        }),
{
    let t = s.put(a);
    assert forall|r: int, c: int| 0 <= r < 80 && 0 <= c < 120 implies #[trigger] t.rows[r][c] == (
    if r == s.row && r < s.h && s.col <= c < s.w && c < s.col + a.len() {
        a[c - s.col]
    } else {
        s.rows[r][c]
    }) by {
        assert(s.rows[r].len() == 120);
    }
}

/// A new line goes to the first column of the next row, and changes no cell.
pub proof fn law_newline(s: Screen)
    ensures
        s.newline().col == 0,
        s.newline().row == s.row + 1,
        s.newline().rows == s.rows,
        s.newline().w == s.w,
        s.newline().h == s.h,
{
}

/// A new frame is blank in the whole grid, and shows at most 120 columns and 80 rows of it.
pub proof fn law_new(w: usize, h: usize, f: Frame)
    requires
        call_ensures(Frame::new, (w, h), f),
    ensures
        w <= 120 ==> f@.w == w,
        w > 120 ==> f@.w == 120,
        h <= 80 ==> f@.h == h,
        h > 80 ==> f@.h == 80,
        f@.col == 0,
        f@.row == 0,
        f@.rows.len() == 80,
        forall|r: int, c: int|
            0 <= r < 80 && 0 <= c < 120 ==> (#[trigger] f@.rows[r][c]).shows(' '),
{
    frame::lemma_cell_of(' ');
}

/// Writes of cells, characters and strings are writes of the cells that show them.
pub proof fn law_writers(f: &mut Frame, cell: Cell, ch: char, s: &str, n: usize)
    ensures
        call_ensures(Frame::put, (f, cell), ()) ==> final(f)@ == old(f)@.put(seq![cell]),
        call_ensures(Frame::put_char, (f, ch), ()) ==> exists|a: Seq<Cell>|
            a.len() == 1 && a[0].shows(ch) && final(f)@ == #[trigger] old(f)@.put(a),
        call_ensures(Frame::fill_char, (f, ch, n), ()) ==> exists|a: Seq<Cell>|
            a.len() == n && (forall|i: int| 0 <= i < n ==> (#[trigger] a[i]).shows(ch)) && final(f)@
                == #[trigger] old(f)@.put(a),
        call_ensures(Frame::fill_spaces, (f, n), ()) ==> exists|a: Seq<Cell>|
            a.len() == n && (forall|i: int| 0 <= i < n ==> (#[trigger] a[i]).shows(' ')) && final(f)@ == #[trigger] old(f)@.put(a),
        call_ensures(Frame::put_str, (f, s), ()) ==> exists|a: Seq<Cell>|
            a.len() == s@.len() && (forall|i: int|
                0 <= i < a.len() ==> (#[trigger] a[i]).shows(s@[i])) && final(f)@ == #[trigger] old(f)@.put(a),
        call_ensures(Frame::put_str_padded, (f, s, n), ()) ==> exists|a: Seq<Cell>|
            a.len() == n && (forall|i: int|
                0 <= i < n ==> (#[trigger] a[i]).shows(fitted(s@, n as int, i))) && final(f)@
                == #[trigger] old(f)@.put(a),
        call_ensures(Frame::newline, (f,), ()) ==> final(f)@ == old(f)@.newline(),
        call_ensures(Frame::home, (f,), ()) ==> final(f)@.rows == old(f)@.rows && final(f)@.col == 0
            && final(f)@.row == 0 && final(f)@.w == old(f)@.w && final(f)@.h == old(f)@.h,
{
    frame::lemma_cell_of(ch);
    frame::lemma_cell_of(' ');
    lemma_cells(seq![ch]);
    lemma_cells(frame::repeated(ch, n as int));
    lemma_cells(frame::repeated(' ', n as int));
    lemma_cells(s@);
    lemma_cells(frame::padded(s@, n as int));
    frame::lemma_padded_len(s@, n as int);
    let p = frame::cells_of(frame::padded(s@, n as int));
    assert forall|i: int| 0 <= i < n implies (#[trigger] p[i]).shows(fitted(s@, n as int, i)) by {
        assert(frame::padded(s@, n as int)[i] == fitted(s@, n as int, i));
    }
    let a1 = frame::cells_of(seq![ch]);
    let a2 = frame::cells_of(frame::repeated(ch, n as int));
    let a3 = frame::cells_of(frame::repeated(' ', n as int));
    assert(a1.len() == 1 && a1[0].shows(ch));
    assert(a2.len() == n);
    assert forall|i: int| 0 <= i < n implies (#[trigger] a2[i]).shows(ch) by {
        assert(frame::repeated(ch, n as int)[i] == ch);
    }
    assert forall|i: int| 0 <= i < n implies (#[trigger] a3[i]).shows(' ') by {
        assert(frame::repeated(' ', n as int)[i] == ' ');
    }
}

proof fn lemma_cells(s: Seq<char>)
    ensures
        frame::cells_of(s).len() == s.len(),
        forall|i: int| 0 <= i < s.len() ==> (#[trigger] frame::cells_of(s)[i]).shows(s[i]),
{
    assert forall|i: int| 0 <= i < s.len() implies (#[trigger] frame::cells_of(s)[i]).shows(
        s[i],
    ) by {
        frame::lemma_cell_of(s[i]);
    }
}

/// `t` is `s` with a line written at its cursor and the cursor on the next row.
pub open spec fn took(s: Screen, line: Seq<char>, t: Screen) -> bool {
    t == s.put(frame::cells_of(line)).newline()
}

/// Each of the calls that draw a line writes that line and goes to the next row.
pub proof fn law_lines_drawn(
    f: &mut Frame,
    name: &str,
    data: &str,
    text: &Buf<64>,
    style: DivStyle,
    filled: usize,
    nc: usize,
    dc: usize,
)
    ensures
        call_ensures(Frame::put_header, (f,), ()) ==> took(
            old(f)@,
            frame::header_line(old(f)@.w),
            final(f)@,
        ),
        call_ensures(Frame::put_centered, (f, data), ()) ==> took(
            old(f)@,
            frame::centered_line(data@, old(f)@.w),
            final(f)@,
        ),
        call_ensures(Frame::put_divider, (f, style, nc), ()) ==> took(
            old(f)@,
            frame::divider_line(style, nc as int, old(f)@.w),
            final(f)@,
        ),
        call_ensures(Frame::put_row, (f, name, data, nc, dc), ()) ==> took(
            old(f)@,
            frame::row_line(name@, data@, nc as int, dc as int),
            final(f)@,
        ),
        call_ensures(Frame::put_bar_row, (f, name, filled, nc, dc), ()) ==> took(
            old(f)@,
            frame::bar_line(name@, filled as int, nc as int, dc as int),
            final(f)@,
        ),
        call_ensures(Frame::put_row_buf::<64>, (f, name, text, nc, dc), ()) ==> took(
            old(f)@,
            frame::row_line(name@, text.text(), nc as int, dc as int),
            final(f)@,
        ),
        call_ensures(Frame::put_empty_row, (f, nc, dc), ()) ==> took(
            old(f)@,
            frame::row_line(seq![], seq![], nc as int, dc as int),
            final(f)@,
        ),
{
}

/// A call draws empty rows as far as the row before `end`, and none where the cursor is there.
pub proof fn law_empty_rows(f: &mut Frame, end: usize, nc: usize, dc: usize, n: nat)
    requires
        call_ensures(Frame::put_empty_rows, (f, end, nc, dc), ()),
        end >= old(f)@.row ==> old(f)@.row + n == end,
        end < old(f)@.row ==> n == 0,
    ensures
        exists|rows: Seq<Seq<char>>|
            {
                &&& rows.len() == n
                &&& forall|i: int|
                    0 <= i < n ==> #[trigger] rows[i] == frame::row_line(
                        seq![],
                        seq![],
                        nc as int,
                        dc as int,
                    )
                &&& final(f)@ == #[trigger] old(f)@.lines(rows)
            },
{
    let rows = frame::empty_lines(end - old(f)@.row, nc as int, dc as int);
    assert(rows.len() == n);
}

/// The lines of some lines of a report are written one to a row, from the cursor on.
pub proof fn law_lines(s: Screen, l: Seq<Seq<char>>, line: Seq<char>)
    ensures
        s.lines(seq![]) == s,
        took(s.lines(l), line, s.lines(l.push(line))),
{
    assert(l.push(line).drop_last() =~= l);
}

/// A blank cell holds a space.
pub proof fn law_space(c: Cell)
    requires
        call_ensures(Cell::space, (), c),
    ensures
        c.len == 1,
        c.b[0] == 32,
        forall|i: int| 1 <= i < 4 ==> #[trigger] c.b[i] == 0,
{
    assert(encode_scalar(' ' as u32).len() == 1);
    assert(c@[0] == c.b[0]);
    assert(seq![' '].drop_first() =~= seq![]);
    assert(encode_utf8(seq![]) =~= seq![]);
    assert(encode_utf8(seq![' ']) =~= encode_scalar(' ' as u32));
    is_ascii_chars_encode_utf8(seq![' ']);
}

/// The cell of a character holds its UTF-8 bytes.
pub proof fn law_cell(ch: char, c: Cell)
    requires
        call_ensures(Cell::from_char, (ch,), c),
    ensures
        1 <= c.len <= 4,
        c.b@.take(c.len as int) == encode_utf8(seq![ch]),
        forall|i: int| c.len <= i < 4 ==> #[trigger] c.b[i] == 0,
{
    assert(seq![ch].drop_first() =~= seq![]);
    assert(encode_utf8(seq![]) =~= seq![]);
    assert(encode_utf8(seq![ch]) =~= encode_scalar(ch as u32));
}

/// A call writes the bytes of the rows that are shown, with a line feed between each two, and
/// leaves what follows in the output.
pub proof fn law_write(f: &Frame, out: &mut [u8], n: usize)
    ensures
        call_ensures(Frame::write_full, (f, out), n) ==> {
            &&& n == frame::screen_bytes(f@.shown()).len()
            &&& final(out)@ == frame::screen_bytes(f@.shown()) + old(out)@.skip(n as int)
        },
        call_ensures(Frame::write_lines, (f, out), n) ==> {
            &&& n == frame::screen_bytes(f@.shown()).len() + 1
            &&& final(out)@ == frame::screen_bytes(f@.shown()) + seq!['\n' as u8] + old(out)@.skip(
                n as int,
            )
        },
{
}

/// The bytes of rows are those of their cells, one after the other, with a line feed between each
/// two rows.
pub proof fn law_screen_bytes(rows: Seq<Seq<Cell>>, row: Seq<Cell>, line: Seq<Cell>, cell: Cell)
    ensures
        frame::screen_bytes(seq![]).len() == 0,
        frame::screen_bytes(seq![row]) == frame::line_bytes(row),
        rows.len() > 0 ==> frame::screen_bytes(rows.push(row)) == frame::screen_bytes(rows) + seq![
            '\n' as u8,
        ] + frame::line_bytes(row),
        frame::line_bytes(seq![]).len() == 0,
        frame::line_bytes(line.push(cell)) == frame::line_bytes(line) + cell.b@.take(
            cell.len as int,
        ),
{
    assert(rows.push(row).drop_last() =~= rows);
    assert(line.push(cell).drop_last() =~= line);
}

/// The part of the grid that is shown is its first `h` rows, as far as `w` columns.
pub proof fn law_shown(s: Screen, r: int, c: int)
    requires
        s.wf(),
        0 <= r < s.h,
        0 <= c < s.w,
    ensures
        s.shown().len() == s.h,
        s.shown()[r].len() == s.w,
        s.shown()[r][c] == s.rows[r][c],
{
}

} // verus!
