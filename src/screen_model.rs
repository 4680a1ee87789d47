use vstd::prelude::*;
use crate::decoder::VtEvent;
use crate::text::{Cell, Color, Style, sat_sub, min_int};

verus! {

/// Final bytes of the control sequences the screen buffer acts on.
pub const CSI_CURSOR_UP: u8 = 0x41;
pub const CSI_CURSOR_DOWN: u8 = 0x42;
pub const CSI_CURSOR_FORWARD: u8 = 0x43;
pub const CSI_CURSOR_BACK: u8 = 0x44;
pub const CSI_CURSOR_POSITION: u8 = 0x48;
pub const CSI_POSITION_ALT: u8 = 0x66;
pub const CSI_ERASE_IN_ROW: u8 = 0x4b;
pub const CSI_ERASE_IN_DISPLAY: u8 = 0x4a;
pub const CSI_DELETE_CHARS: u8 = 0x50;
pub const CSI_GRAPHIC_RENDITION: u8 = 0x6d;

/// What a screen buffer holds: every row written so far, the window shown, the cursor (relative
/// to the window) and the attributes given to the next printed character.
pub struct ScreenModel {
    pub rows: Seq<Seq<Cell>>,
    pub top: int,
    pub width: int,
    pub height: int,
    pub cx: int,
    pub cy: int,
    pub pen: Cell,
}

pub open spec fn empty_cell() -> Cell {
    Cell::spec_default()
}

/// `row` with `cell` at column `c`, padded with empty cells up to `c` where it was shorter.
pub open spec fn row_put(row: Seq<Cell>, c: int, cell: Cell) -> Seq<Cell> {
    Seq::new(
        if row.len() > c { row.len() } else { (c + 1) as nat },
        |j: int| if j == c { cell } else if j < row.len() { row[j] } else { empty_cell() },
    )
}

/// `rows` with `cell` at row `r`, column `c`, adding empty rows up to `r` where there were fewer.
pub open spec fn rows_put(rows: Seq<Seq<Cell>>, r: int, c: int, cell: Cell) -> Seq<Seq<Cell>> {
    Seq::new(
        if rows.len() > r { rows.len() } else { (r + 1) as nat },
        |i: int|
            if i == r {
                row_put(if i < rows.len() { rows[i] } else { Seq::empty() }, c, cell)
            } else if i < rows.len() {
                rows[i]
            } else {
                Seq::empty()
            },
    )
}

/// The cells from column `c` on are emptied.
pub open spec fn row_erase_from(row: Seq<Cell>, c: int) -> Seq<Cell> {
    Seq::new(row.len(), |j: int| if j >= c { empty_cell() } else { row[j] })
}

/// The cells up to column `c`, that one included, are emptied.
pub open spec fn row_erase_to(row: Seq<Cell>, c: int) -> Seq<Cell> {
    Seq::new(row.len(), |j: int| if j <= c { empty_cell() } else { row[j] })
}

pub open spec fn row_clear(row: Seq<Cell>) -> Seq<Cell> {
    Seq::new(row.len(), |j: int| empty_cell())
}

/// Up to `n` cells at column `c` are removed; the rest of the row moves left.
pub open spec fn row_delete(row: Seq<Cell>, c: int, n: int) -> Seq<Cell> {
    if c < row.len() {
        row.subrange(0, c) + row.subrange(min_int(c + n, row.len() as int), row.len() as int)
    } else {
        row
    }
}

impl Cell {
    /// The same character with default colours and no style.
    pub open spec fn plain(self) -> Cell {
        Cell {
            fg_color: Color::Default,
            bg_color: Color::Default,
            style: Style::spec_default(),
            ..self
        }
    }

    pub open spec fn with_bold(self, bold: bool) -> Cell {
        Cell { style: Style { bold, ..self.style }, ..self }
    }

    pub open spec fn with_underline(self, underline: bool) -> Cell {
        Cell { style: Style { underline, ..self.style }, ..self }
    }

    pub open spec fn with_fg(self, color: u8) -> Cell {
        Cell { fg_color: Color::Indexed(color), ..self }
    }

    pub open spec fn with_bg(self, color: u8) -> Cell {
        Cell { bg_color: Color::Indexed(color), ..self }
    }
}

/// A cell's attributes after one graphic-rendition parameter; unknown parameters change nothing.
pub open spec fn restyle(cell: Cell, p: u16) -> Cell {
    if p == 0 {
        cell.plain()
    } else if p == 1 {
        cell.with_bold(true)
    } else if p == 4 {
        cell.with_underline(true)
    } else if 30 <= p <= 37 {
        cell.with_fg((p - 30) as u8)
    } else if 40 <= p <= 47 {
        cell.with_bg((p - 40) as u8)
    } else {
        cell
    }
}

/// The `i`-th control-sequence parameter, or `d` where it is missing or zero.
pub open spec fn param_or(ps: Seq<u16>, i: int, d: int) -> int {
    if 0 <= i < ps.len() && ps[i] != 0 {
        ps[i] as int
    } else {
        d
    }
}

/// The first control-sequence parameter as a mode number, zero where it is missing.
pub open spec fn mode_of(ps: Seq<u16>) -> int {
    if ps.len() > 0 {
        ps[0] as int
    } else {
        0
    }
}


pub open spec fn row_text(row: Seq<Cell>) -> Seq<char> {
    row.map_values(|c: Cell| c.character)
}

/// The characters of `rows`, each row followed by a line break.
pub open spec fn rows_text(rows: Seq<Seq<Cell>>) -> Seq<char>
    decreases rows.len(),
{
    if rows.len() == 0 {
        Seq::empty()
    } else {
        rows_text(rows.drop_last()) + row_text(rows.last()) + seq!['\n']
    }
}

impl ScreenModel {
    pub open spec fn wf(self) -> bool {
        &&& 0 < self.width <= usize::MAX
        &&& 0 < self.height <= usize::MAX
        &&& 0 <= self.cx < self.width
        &&& 0 <= self.cy < self.height
        &&& 0 <= self.top <= usize::MAX
    }

    /// The index in `rows` of the row the cursor is on.
    pub open spec fn cursor_row(self) -> int {
        self.top + self.cy
    }

    /// The cell at row `r`, column `c`; a cell that was never written reads as empty.
    pub open spec fn cell(self, r: int, c: int) -> Cell {
        if 0 <= r < self.rows.len() && 0 <= c < self.rows[r].len() {
            self.rows[r][c]
        } else {
            empty_cell()
        }
    }

    /// The cell shown at line `y`, column `x` of the window.
    pub open spec fn visible_cell(self, y: int, x: int) -> Cell {
        self.cell(self.top + y, x)
    }

    /// `f` applied to the cursor's row, where that row exists.
    pub open spec fn map_cursor_row(self, f: spec_fn(Seq<Cell>) -> Seq<Cell>) -> ScreenModel {
        let r = self.cursor_row();
        if 0 <= r < self.rows.len() {
            ScreenModel { rows: self.rows.update(r, f(self.rows[r])), ..self }
        } else {
            self
        }
    }

    /// Column zero of the next line; on the last line the window moves down one row instead.
    pub open spec fn line_feed(self) -> ScreenModel {
        if self.cy + 1 < self.height {
            ScreenModel { cx: 0, cy: self.cy + 1, ..self }
        } else {
            ScreenModel { cx: 0, top: min_int(self.top + 1, usize::MAX as int), ..self }
        }
    }

    /// `c` with the current attributes at the cursor, then the cursor one column on, wrapping
    /// at the right edge.
    pub open spec fn print(self, c: char) -> ScreenModel {
        let written = if self.cursor_row() < usize::MAX {
            ScreenModel {
                rows: rows_put(self.rows, self.cursor_row(), self.cx, self.pen.with_char(c)),
                ..self
            }
        } else {
            self
        };
        if self.cx + 1 < self.width {
            ScreenModel { cx: self.cx + 1, ..written }
        } else {
            written.line_feed()
        }
    }

    /// A control byte: line feed, carriage return, backspace and tab act; others change nothing.
    pub open spec fn execute(self, byte: u8) -> ScreenModel {
        if byte == 0x0a {
            self.line_feed()
        } else if byte == 0x0d {
            ScreenModel { cx: 0, ..self }
        } else if byte == 0x08 {
            ScreenModel { cx: sat_sub(self.cx, 1), ..self }
        } else if byte == 0x09 {
            let nx = self.cx + 8 - self.cx % 8;
            if nx >= self.width {
                self.line_feed()
            } else {
                ScreenModel { cx: nx, ..self }
            }
        } else {
            self
        }
    }

    /// The cursor at line `y`, column `x` of the window, each clamped to the window.
    pub open spec fn move_to(self, x: int, y: int) -> ScreenModel {
        ScreenModel {
            cx: min_int(x, self.width - 1),
            cy: min_int(y, self.height - 1),
            ..self
        }
    }

    pub open spec fn erase_in_row(self, mode: int) -> ScreenModel {
        let cx = self.cx;
        if mode == 0 {
            self.map_cursor_row(|row: Seq<Cell>| row_erase_from(row, cx))
        } else if mode == 1 {
            self.map_cursor_row(|row: Seq<Cell>| row_erase_to(row, cx))
        } else if mode == 2 {
            self.map_cursor_row(|row: Seq<Cell>| row_clear(row))
        } else {
            self
        }
    }

    /// Row `i` erased as mode `mode` of an erase in display asks, with the cursor on row `r`,
    /// column `cx`: 0 from the cursor on, 1 up to the cursor, 2 everything.
    pub open spec fn erase_display_row(row: Seq<Cell>, i: int, r: int, cx: int, mode: int) -> Seq<Cell> {
        if mode == 0 {
            if i == r {
                row_erase_from(row, cx)
            } else if i > r {
                row_clear(row)
            } else {
                row
            }
        } else if mode == 1 {
            if i == r {
                row_erase_to(row, cx)
            } else if i < r {
                row_clear(row)
            } else {
                row
            }
        } else if mode == 2 {
            row_clear(row)
        } else {
            row
        }
    }

    pub open spec fn erase_in_display(self, mode: int) -> ScreenModel {
        ScreenModel {
            rows: Seq::new(
                self.rows.len(),
                |i: int|
                    ScreenModel::erase_display_row(self.rows[i], i, self.cursor_row(), self.cx, mode),
            ),
            ..self
        }
    }

    /// `f` applied to the attributes of later characters and to the cell under the cursor.
    pub open spec fn restyled(self, f: spec_fn(Cell) -> Cell) -> ScreenModel {
        let cx = self.cx;
        let styled = ScreenModel { pen: f(self.pen), ..self };
        styled.map_cursor_row(
            |row: Seq<Cell>|
                if cx < row.len() {
                    row.update(cx, f(row[cx]))
                } else {
                    row
                },
        )
    }

    /// One graphic-rendition parameter, applied to the attributes of later characters and to
    /// the cell under the cursor.
    pub open spec fn sgr_one(self, p: u16) -> ScreenModel {
        self.restyled(|c: Cell| restyle(c, p))
    }

    /// The graphic-rendition parameters, applied in order.
    pub open spec fn sgr(self, ps: Seq<u16>) -> ScreenModel
        decreases ps.len(),
    {
        if ps.len() == 0 {
            self
        } else {
            self.sgr(ps.drop_last()).sgr_one(ps.last())
        }
    }

    /// The window moved `n` rows toward older rows, stopping at the first row.
    pub open spec fn scrolled_up(self, n: int) -> ScreenModel {
        ScreenModel { top: sat_sub(self.top, n), ..self }
    }

    /// The window moved `n` rows toward newer rows, stopping where its last line shows the
    /// last row.
    pub open spec fn scrolled_down(self, n: int) -> ScreenModel {
        ScreenModel {
            top: min_int(self.top + n, sat_sub(self.rows.len() as int, self.height)),
            ..self
        }
    }

    /// The characters of the rows in the window, each row followed by a line break.
    pub open spec fn viewport_text(self) -> Seq<char> {
        let len = self.rows.len() as int;
        rows_text(self.rows.subrange(min_int(self.top, len), min_int(self.top + self.height, len)))
    }

    /// A control sequence with parameters `ps` and final byte `action`.
    pub open spec fn csi(self, ps: Seq<u16>, action: u8) -> ScreenModel {
        let cx = self.cx;
        if action == CSI_CURSOR_UP {
            ScreenModel { cy: sat_sub(self.cy, param_or(ps, 0, 1)), ..self }
        } else if action == CSI_CURSOR_DOWN {
            ScreenModel { cy: min_int(self.cy + param_or(ps, 0, 1), self.height - 1), ..self }
        } else if action == CSI_CURSOR_FORWARD {
            ScreenModel { cx: min_int(self.cx + param_or(ps, 0, 1), self.width - 1), ..self }
        } else if action == CSI_CURSOR_BACK {
            ScreenModel { cx: sat_sub(self.cx, param_or(ps, 0, 1)), ..self }
        } else if action == CSI_CURSOR_POSITION || action == CSI_POSITION_ALT {
            // H, f: absolute position, one-based row then column
            self.move_to(param_or(ps, 1, 1) - 1, param_or(ps, 0, 1) - 1)
        } else if action == CSI_ERASE_IN_ROW {
            self.erase_in_row(mode_of(ps))
        } else if action == CSI_ERASE_IN_DISPLAY {
            self.erase_in_display(mode_of(ps))
        } else if action == CSI_DELETE_CHARS {
            let n = param_or(ps, 0, 1);
            self.map_cursor_row(|row: Seq<Cell>| row_delete(row, cx, n))
        } else if action == CSI_GRAPHIC_RENDITION {
            self.sgr(ps)
        } else {
            self
        }
    }
}

/// The screen after one parser action; escape sequences, operating-system commands and device
/// control strings leave it as it is.
pub open spec fn apply_event(m: ScreenModel, e: VtEvent) -> ScreenModel {
    match e {
        VtEvent::Print(c) => m.print(c),
        VtEvent::Execute(b) => m.execute(b),
        VtEvent::Csi { params, action } => m.csi(params@, action),
        _ => m,
    }
}

/// The screen after the parser actions `es`, in order.
pub open spec fn apply_events(m: ScreenModel, es: Seq<VtEvent>) -> ScreenModel
    decreases es.len(),
{
    if es.len() == 0 {
        m
    } else {
        apply_event(apply_events(m, es.drop_last()), es.last())
    }
}

/// Applying `a` then `b` is applying `a + b`.
pub proof fn lemma_apply_events_concat(m: ScreenModel, a: Seq<VtEvent>, b: Seq<VtEvent>)
    ensures
        apply_events(m, a + b) == apply_events(apply_events(m, a), b),
    decreases b.len(),
{
    if b.len() == 0 {
        assert(a + b =~= a);
    } else {
        lemma_apply_events_concat(m, a, b.drop_last());
        assert((a + b).drop_last() =~= a + b.drop_last());
        assert((a + b).last() == b.last());
    }
}

/// Printing `c` puts it in the cell under the cursor and moves the cursor one column on; at the
/// right edge the cursor goes to column zero of the next line, and on the last line the window
/// moves down by exactly one row instead. `TextBuffer::insert_char` and a `Print` action given
/// to `TextBuffer::dispatch` both end in `print(c)`.
pub proof fn lemma_print_at_cursor(m: ScreenModel, c: char)
    requires
        m.wf(),
        m.cursor_row() < usize::MAX,
        m.top < usize::MAX,
    ensures
        m.print(c).wf(),
        m.print(c).cell(m.cursor_row(), m.cx).character == c,
        m.cx + 1 < m.width ==> m.print(c).cx == m.cx + 1 && m.print(c).cy == m.cy && m.print(c).top
            == m.top,
        m.cx + 1 == m.width && m.cy + 1 < m.height ==> m.print(c).cx == 0 && m.print(c).cy == m.cy
            + 1 && m.print(c).top == m.top,
        m.cx + 1 == m.width && m.cy + 1 == m.height ==> m.print(c).cx == 0 && m.print(c).cy == m.cy
            && m.print(c).top == m.top + 1,
{
}

/// After an erase of the whole display every cell of the window reads as the empty cell.
pub proof fn lemma_erase_display_clears_window(m: ScreenModel)
    requires
        m.wf(),
    ensures
        m.csi(seq![2u16], CSI_ERASE_IN_DISPLAY).wf(),
        forall|y: int, x: int|
            0 <= y < m.height && 0 <= x < m.width ==> #[trigger] m.csi(
                seq![2u16],
                CSI_ERASE_IN_DISPLAY,
            ).visible_cell(y, x) == empty_cell(),
{
    let e = m.csi(seq![2u16], CSI_ERASE_IN_DISPLAY);
    assert(mode_of(seq![2u16]) == 2);
    assert forall|y: int, x: int| 0 <= y < m.height && 0 <= x < m.width implies #[trigger] e.visible_cell(
        y,
        x,
    ) == empty_cell() by {
        let r = m.top + y;
        if 0 <= r < e.rows.len() && 0 <= x < e.rows[r].len() {
            assert(e.rows[r] == row_clear(m.rows[r]));
        }
    }
}

/// After the graphic rendition "bold", the next printed character is bold: the screen that
/// `TextBuffer::csi_dispatch` with `[1]` and `m`, then `TextBuffer::insert_char`, leave.
pub proof fn lemma_bold_then_print(m: ScreenModel, c: char)
    requires
        m.wf(),
        m.cursor_row() < usize::MAX,
    ensures
        m.csi(seq![1u16], CSI_GRAPHIC_RENDITION).print(c).cell(m.cursor_row(), m.cx)
            == m.pen.with_bold(true).with_char(c),
        m.csi(seq![1u16], CSI_GRAPHIC_RENDITION).print(c).cell(m.cursor_row(), m.cx).style.bold,
{
    let ps = seq![1u16];
    assert(ps.drop_last() =~= Seq::<u16>::empty());
    assert(m.sgr(Seq::<u16>::empty()) == m);
    assert(m.sgr(ps) == m.sgr_one(1));
    let s = m.csi(ps, CSI_GRAPHIC_RENDITION);
    assert(s.pen == m.pen.with_bold(true));
    assert(s.cursor_row() == m.cursor_row() && s.cx == m.cx);
}

/// After the graphic rendition "reset", the next printed character has the default colours,
/// and is neither bold nor underlined: the screen that `TextBuffer::csi_dispatch` with `[0]` and
/// `m`, then `TextBuffer::insert_char`, leave.
pub proof fn lemma_reset_then_print(m: ScreenModel, c: char)
    requires
        m.wf(),
        m.cursor_row() < usize::MAX,
    ensures
        m.csi(seq![0u16], CSI_GRAPHIC_RENDITION).print(c).cell(m.cursor_row(), m.cx)
            == Cell::spec_default().with_char(c),
{
    let ps = seq![0u16];
    assert(ps.drop_last() =~= Seq::<u16>::empty());
    assert(m.sgr(Seq::<u16>::empty()) == m);
    assert(m.sgr(ps) == m.sgr_one(0));
    let s = m.csi(ps, CSI_GRAPHIC_RENDITION);
    assert(s.pen == m.pen.plain());
    assert(s.cursor_row() == m.cursor_row() && s.cx == m.cx);
}

} // verus!
