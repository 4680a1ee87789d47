use vstd::prelude::*;
use crate::decoder::VtEvent;
use crate::screen_model::{
    apply_event,
    ScreenModel, empty_cell, mode_of, param_or, restyle, row_clear, row_delete, row_erase_from,
    row_erase_to, row_put, row_text, rows_put, rows_text, CSI_CURSOR_UP, CSI_CURSOR_DOWN,
    CSI_CURSOR_FORWARD, CSI_CURSOR_BACK, CSI_CURSOR_POSITION, CSI_POSITION_ALT, CSI_ERASE_IN_ROW,
    CSI_ERASE_IN_DISPLAY, CSI_DELETE_CHARS, CSI_GRAPHIC_RENDITION,
};
use crate::text::{Cell, Color, Style, Viewport, push_char};

verus! {

/// The rows written so far as sequences of cells.
pub open spec fn rows_view(rows: Seq<Vec<Cell>>) -> Seq<Seq<Cell>> {
    rows.map_values(|r: Vec<Cell>| r@)
}

/// Writes `cell` at column `c`, padding the row with empty cells up to it.
fn row_set(row: &mut Vec<Cell>, c: usize, cell: Cell)
    requires
        c < usize::MAX,
    ensures
        final(row)@ == row_put(old(row)@, c as int, cell),
{
    let ghost start = row@;
    while row.len() <= c
        invariant
            c < usize::MAX,
            start.len() <= row@.len() <= c + 1 || row@.len() == start.len(),
            forall|j: int| 0 <= j < start.len() ==> #[trigger] row@[j] == start[j],
            forall|j: int| start.len() <= j < row@.len() ==> #[trigger] row@[j] == empty_cell(),
            row@.len() >= start.len(),
        decreases c + 1 - row@.len(),
    {
        row.push(Cell::default());
    }
    row.set(c, cell);
    assert(row@ =~= row_put(start, c as int, cell));
}

/// Empties the cells from `from` up to (not including) `to`.
fn row_blank_range(row: &mut Vec<Cell>, from: usize, to: usize)
    requires
        to <= old(row)@.len(),
    ensures
        final(row)@ == Seq::new(
            old(row)@.len(),
            |j: int| if from <= j < to { empty_cell() } else { old(row)@[j] },
        ),
{
    let ghost start = row@;
    let mut j: usize = from;
    while j < to
        invariant
            to <= start.len(),
            row@.len() == start.len(),
            from <= j,
            j <= to || j == from,
            forall|k: int|
                0 <= k < start.len() ==> #[trigger] row@[k] == if from <= k < j {
                    empty_cell()
                } else {
                    start[k]
                },
        decreases to - j,
    {
        row.set(j, Cell::default());
        j = j + 1;
    }
    assert(row@ =~= Seq::new(
        start.len(),
        |k: int| if from <= k < to { empty_cell() } else { start[k] },
    ));
}

/// Writes `cell` at row `r`, column `c`, creating empty rows and cells up to it.
fn rows_set(rows: &mut Vec<Vec<Cell>>, r: usize, c: usize, cell: Cell)
    requires
        r < usize::MAX,
        c < usize::MAX,
    ensures
        rows_view(final(rows)@) == rows_put(rows_view(old(rows)@), r as int, c as int, cell),
{
    let ghost start = rows@;
    while rows.len() <= r
        invariant
            r < usize::MAX,
            start.len() <= rows@.len(),
            rows@.len() <= r + 1 || rows@.len() == start.len(),
            forall|i: int| 0 <= i < start.len() ==> #[trigger] rows@[i] == start[i],
            forall|i: int|
                start.len() <= i < rows@.len() ==> #[trigger] rows@[i]@ == Seq::<Cell>::empty(),
        decreases r + 1 - rows@.len(),
    {
        rows.push(Vec::new());
    }
    let ghost mid = rows@;
    row_set(&mut rows[r], c, cell);
    assert(rows_view(rows@) =~= rows_put(rows_view(start), r as int, c as int, cell)) by {
        assert forall|i: int| 0 <= i < rows@.len() implies #[trigger] rows_view(rows@)[i]
            == rows_put(rows_view(start), r as int, c as int, cell)[i] by {
            if i != r {
                assert(rows@[i] == mid[i]);
            }
        }
    }
}

/// Empties the cells from column `c` on.
fn row_erase_from_exec(row: &mut Vec<Cell>, c: usize)
    ensures
        final(row)@ == row_erase_from(old(row)@, c as int),
{
    let len = row.len();
    let from = if c < len { c } else { len };
    row_blank_range(row, from, len);
    assert(row@ =~= row_erase_from(old(row)@, c as int));
}

/// Empties the cells up to column `c`, that one included.
fn row_erase_to_exec(row: &mut Vec<Cell>, c: usize)
    requires
        c < usize::MAX,
    ensures
        final(row)@ == row_erase_to(old(row)@, c as int),
{
    let len = row.len();
    let to = if c < len { c + 1 } else { len };
    row_blank_range(row, 0, to);
    assert(row@ =~= row_erase_to(old(row)@, c as int));
}

fn row_clear_exec(row: &mut Vec<Cell>)
    ensures
        final(row)@ == row_clear(old(row)@),
{
    let len = row.len();
    row_blank_range(row, 0, len);
    assert(row@ =~= row_clear(old(row)@));
}

/// Removes up to `n` cells at column `c`, moving the rest of the row left.
fn row_delete_exec(row: &mut Vec<Cell>, c: usize, n: usize)
    ensures
        final(row)@ == row_delete(old(row)@, c as int, n as int),
{
    let ghost start = row@;
    let len = row.len();
    if c < len {
        let gap = if n < len - c { n } else { len - c };
        let keep = len - gap;
        let mut j: usize = c;
        while j < keep
            invariant
                c <= j <= keep,
                keep == len - gap,
                c <= keep,
                len == start.len(),
                row@.len() == len,
                forall|k: int| 0 <= k < c ==> #[trigger] row@[k] == start[k],
                forall|k: int| c <= k < j ==> #[trigger] row@[k] == start[k + gap],
                forall|k: int| j <= k < len ==> #[trigger] row@[k] == start[k],
            decreases keep - j,
        {
            let moved = row[j + gap];
            row.set(j, moved);
            j = j + 1;
        }
        row.truncate(keep);
        assert(row@ =~= row_delete(start, c as int, n as int));
    }
}

/// The attributes of `cell` after the graphic-rendition parameter `p`.
fn restyle_exec(cell: Cell, p: u16) -> (r: Cell)
    ensures
        r == restyle(cell, p),
{
    if p == 0 {
        Cell {
            fg_color: Color::Default,
            bg_color: Color::Default,
            style: Style { bold: false, underline: false },
            ..cell
        }
    } else if p == 1 {
        Cell { style: Style { bold: true, ..cell.style }, ..cell }
    } else if p == 4 {
        Cell { style: Style { underline: true, ..cell.style }, ..cell }
    } else if 30 <= p && p <= 37 {
        Cell { fg_color: Color::Indexed((p - 30) as u8), ..cell }
    } else if 40 <= p && p <= 47 {
        Cell { bg_color: Color::Indexed((p - 40) as u8), ..cell }
    } else {
        cell
    }
}

/// Row `i` erased as an erase in display of mode `mode` asks, the cursor being on row `r`.
fn erase_display_row_exec(row: &mut Vec<Cell>, i: usize, r: usize, cx: usize, mode: u16)
    requires
        cx < usize::MAX,
    ensures
        final(row)@ == ScreenModel::erase_display_row(
            old(row)@,
            i as int,
            r as int,
            cx as int,
            mode as int,
        ),
{
    if mode == 0 {
        if i == r {
            row_erase_from_exec(row, cx);
        } else if i > r {
            row_clear_exec(row);
        }
    } else if mode == 1 {
        if i == r {
            row_erase_to_exec(row, cx);
        } else if i < r {
            row_clear_exec(row);
        }
    } else if mode == 2 {
        row_clear_exec(row);
    }
}

/// Applies an erase in display of mode `mode` to every row, the cursor being on row `r`.
fn rows_erase_display(rows: &mut Vec<Vec<Cell>>, r: usize, cx: usize, mode: u16)
    requires
        cx < usize::MAX,
    ensures
        rows_view(final(rows)@) == Seq::new(
            old(rows)@.len(),
            |i: int|
                ScreenModel::erase_display_row(
                    rows_view(old(rows)@)[i],
                    i,
                    r as int,
                    cx as int,
                    mode as int,
                ),
        ),
{
    let ghost start = rows@;
    let mut i: usize = 0;
    while i < rows.len()
        invariant
            cx < usize::MAX,
            rows@.len() == start.len(),
            0 <= i <= rows@.len(),
            forall|k: int|
                0 <= k < i ==> #[trigger] rows@[k]@ == ScreenModel::erase_display_row(
                    start[k]@,
                    k,
                    r as int,
                    cx as int,
                    mode as int,
                ),
            forall|k: int| i <= k < rows@.len() ==> #[trigger] rows@[k] == start[k],
        decreases rows@.len() - i,
    {
        erase_display_row_exec(&mut rows[i], i, r, cx, mode);
        i = i + 1;
    }
    assert(rows_view(rows@) =~= Seq::new(
        start.len(),
        |i: int|
            ScreenModel::erase_display_row(rows_view(start)[i], i, r as int, cx as int, mode as int),
    ));
}

proof fn lemma_restyled_ext(m: ScreenModel, f: spec_fn(Cell) -> Cell, g: spec_fn(Cell) -> Cell)
    requires
        forall|c: Cell| #[trigger] f(c) == g(c),
    ensures
        m.restyled(f) == m.restyled(g),
{
    let r = m.cursor_row();
    if 0 <= r < m.rows.len() && m.cx < m.rows[r].len() {
        assert(f(m.rows[r][m.cx]) == g(m.rows[r][m.cx]));
    }
    assert(f(m.pen) == g(m.pen));
}

proof fn lemma_restyled_no_cell(m: ScreenModel)
    requires
        !(0 <= m.cursor_row() < m.rows.len() && m.cx < m.rows[m.cursor_row()].len()),
    ensures
        forall|f: spec_fn(Cell) -> Cell| #[trigger]
            m.restyled(f) == (ScreenModel { pen: f(m.pen), ..m }),
{
    assert forall|f: spec_fn(Cell) -> Cell| #[trigger]
        m.restyled(f) == (ScreenModel { pen: f(m.pen), ..m }) by {
        let r = m.cursor_row();
        if 0 <= r < m.rows.len() {
            assert(m.rows.update(r, m.rows[r]) =~= m.rows);
        }
    }
}

proof fn lemma_rows_update(before: Seq<Vec<Cell>>, after: Seq<Vec<Cell>>, r: int)
    requires
        0 <= r < before.len(),
        after == before.update(r, after[r]),
    ensures
        rows_view(after) == rows_view(before).update(r, after[r]@),
{
    assert(rows_view(after) =~= rows_view(before).update(r, after[r]@));
}

/// The first control-sequence parameter as a mode number, zero where it is missing.
fn mode_exec(params: &Vec<u16>) -> (r: u16)
    ensures
        r as int == mode_of(params@),
{
    if params.len() > 0 {
        params[0]
    } else {
        0
    }
}

/// The `i`-th control-sequence parameter, or `d` where it is missing or zero.
fn param_exec(params: &Vec<u16>, i: usize, d: usize) -> (r: usize)
    ensures
        r as int == param_or(params@, i as int, d as int),
{
    if i < params.len() && params[i] != 0 {
        params[i] as usize
    } else {
        d
    }
}

/// The screen buffer: every row written so far, a window over them, the cursor inside the
/// window and the attributes of the next printed character.
pub struct TextBuffer {
    rows: Vec<Vec<Cell>>,
    viewport: Viewport,
    cursor_x: usize,
    cursor_y: usize,
    pen: Cell,
}

impl View for TextBuffer {
    type V = ScreenModel;

    closed spec fn view(&self) -> ScreenModel {
        ScreenModel {
            rows: rows_view(self.rows@),
            top: self.viewport.top_row as int,
            width: self.viewport.width as int,
            height: self.viewport.height as int,
            cx: self.cursor_x as int,
            cy: self.cursor_y as int,
            pen: self.pen,
        }
    }
}

impl TextBuffer {
    pub open spec fn wf(&self) -> bool {
        self@.wf()
    }

    proof fn lemma_view_wf(&self)
        requires
            0 < self.viewport.width,
            0 < self.viewport.height,
            self.cursor_x < self.viewport.width,
            self.cursor_y < self.viewport.height,
        ensures
            self.wf(),
    {
    }

    /// An empty buffer showing `height` rows of `width` cells, cursor at the top left.
    pub fn new(width: usize, height: usize) -> (b: TextBuffer)
        requires
            width > 0,
            height > 0,
        ensures
            b.wf(),
            b@.rows == Seq::<Seq<Cell>>::empty(),
            b@.top == 0,
            b@.width == width,
            b@.height == height,
            b@.cx == 0,
            b@.cy == 0,
            b@.pen == empty_cell(),
    {
        let b = TextBuffer {
            rows: Vec::new(),
            viewport: Viewport::new(height, width),
            cursor_x: 0,
            cursor_y: 0,
            pen: Cell::default(),
        };
        assert(b@.rows =~= Seq::<Seq<Cell>>::empty());
        proof {
            b.lemma_view_wf();
        }
        b
    }

    pub fn width(&self) -> (r: usize)
        ensures
            r == self@.width,
    {
        self.viewport.width
    }

    pub fn height(&self) -> (r: usize)
        ensures
            r == self@.height,
    {
        self.viewport.height
    }

    pub fn cursor(&self) -> (r: (usize, usize))
        ensures
            r.0 == self@.cx,
            r.1 == self@.cy,
    {
        (self.cursor_x, self.cursor_y)
    }

    pub fn top_row(&self) -> (r: usize)
        ensures
            r == self@.top,
    {
        self.viewport.top_row
    }

    pub fn row_count(&self) -> (r: usize)
        ensures
            r == self@.rows.len(),
    {
        self.rows.len()
    }

    /// The cell at row `row`, column `col` of all rows written; one never written reads as
    /// empty.
    pub fn cell(&self, row: usize, col: usize) -> (r: Cell)
        ensures
            r == self@.cell(row as int, col as int),
    {
        if row < self.rows.len() && col < self.rows[row].len() {
            self.rows[row][col]
        } else {
            Cell::default()
        }
    }

    /// The cell shown at line `y`, column `x` of the window.
    pub fn visible_cell(&self, y: usize, x: usize) -> (r: Cell)
        ensures
            r == self@.visible_cell(y as int, x as int),
    {
        match self.viewport.top_row.checked_add(y) {
            Some(row) => self.cell(row, x),
            None => {
                assert(self@.rows.len() == self.rows.len());
                Cell::default()
            },
        }
    }

    /// Writes `cell` at row `r`, column `c`, creating empty rows and cells up to it.
    fn put_cell(&mut self, r: usize, c: usize, cell: Cell)
        requires
            r < usize::MAX,
            c < usize::MAX,
        ensures
            final(self)@ == (ScreenModel {
                rows: rows_put(old(self)@.rows, r as int, c as int, cell),
                ..old(self)@
            }),
    {
        rows_set(&mut self.rows, r, c, cell);
    }

    /// Column zero of the next line; on the last line the window moves down one row instead.
    pub fn newline(&mut self)
        requires
            old(self).wf(),
        ensures
            final(self).wf(),
            final(self)@ == old(self)@.line_feed(),
    {
        self.cursor_x = 0;
        if self.cursor_y + 1 < self.viewport.height {
            self.cursor_y = self.cursor_y + 1;
        } else {
            self.viewport.top_row = self.viewport.top_row.saturating_add(1);
        }
        proof {
            self.lemma_view_wf();
        }
    }

    /// Prints `c` with the current attributes at the cursor and moves the cursor one column on,
    /// wrapping at the right edge.
    pub fn insert_char(&mut self, c: char)
        requires
            old(self).wf(),
        ensures
            final(self).wf(),
            final(self)@ == old(self)@.print(c),
    {
        let ghost start = self@;
        let top = self.viewport.top_row;
        if top < usize::MAX - self.cursor_y {
            let r = top + self.cursor_y;
            let cell = Cell { character: c, ..self.pen };
            self.put_cell(r, self.cursor_x, cell);
        }
        proof {
            self.lemma_view_wf();
        }
        if self.cursor_x + 1 < self.viewport.width {
            self.cursor_x = self.cursor_x + 1;
            proof {
                self.lemma_view_wf();
            }
        } else {
            self.newline();
        }
    }

    /// A control byte: line feed, carriage return, backspace and tab act; others change nothing.
    pub fn execute(&mut self, byte: u8)
        requires
            old(self).wf(),
        ensures
            final(self).wf(),
            final(self)@ == old(self)@.execute(byte),
    {
        if byte == 0x0a {
            self.newline();
        } else if byte == 0x0d {
            self.cursor_x = 0;
        } else if byte == 0x08 {
            if self.cursor_x > 0 {
                self.cursor_x = self.cursor_x - 1;
            }
        } else if byte == 0x09 {
            let step = 8 - self.cursor_x % 8;
            if step >= self.viewport.width - self.cursor_x {
                self.newline();
            } else {
                self.cursor_x = self.cursor_x + step;
            }
        }
        proof {
            self.lemma_view_wf();
        }
    }

    /// The index of the cursor's row, where that row exists.
    fn cursor_row_index(&self) -> (r: Option<usize>)
        ensures
            r is Some <==> 0 <= self@.cursor_row() < self@.rows.len(),
            r matches Some(i) ==> i as int == self@.cursor_row(),
    {
        let top = self.viewport.top_row;
        let len = self.rows.len();
        if top <= usize::MAX - self.cursor_y && top + self.cursor_y < len {
            Some(top + self.cursor_y)
        } else {
            None
        }
    }

    /// The cell under the cursor, where it exists.
    fn cursor_cell(&self) -> (r: Option<Cell>)
        ensures
            r == (if 0 <= self@.cursor_row() < self@.rows.len() && self@.cx
                < self@.rows[self@.cursor_row()].len() {
                Some(self@.rows[self@.cursor_row()][self@.cx])
            } else {
                None::<Cell>
            }),
    {
        match self.cursor_row_index() {
            Some(r) => {
                assert(self@.rows[r as int] == self.rows@[r as int]@);
                if self.cursor_x < self.rows[r].len() {
                    Some(self.rows[r][self.cursor_x])
                } else {
                    None
                }
            },
            None => None,
        }
    }

    /// Replaces the cell under the cursor, which exists.
    fn replace_cursor_cell(&mut self, cell: Cell)
        requires
            0 <= old(self)@.cursor_row() < old(self)@.rows.len(),
            old(self)@.cx < old(self)@.rows[old(self)@.cursor_row()].len(),
        ensures
            final(self)@ == (ScreenModel {
                rows: old(self)@.rows.update(
                    old(self)@.cursor_row(),
                    old(self)@.rows[old(self)@.cursor_row()].update(old(self)@.cx, cell),
                ),
                ..old(self)@
            }),
    {
        assert(self@.rows.len() == self.rows.len());
        let r = self.viewport.top_row + self.cursor_y;
        let ghost before = self.rows@;
        self.rows[r].set(self.cursor_x, cell);
        proof {
            lemma_rows_update(before, self.rows@, r as int);
        }
    }

    /// Clears the colours and style of later characters and of the cell under the cursor.
    pub fn reset_attributes(&mut self)
        requires
            old(self).wf(),
        ensures
            final(self).wf(),
            final(self)@ == old(self)@.restyled(|c: Cell| c.plain()),
    {
        let plain = |c: Cell| -> (r: Cell)
            ensures
                r == c.plain(),
            {
                Cell {
                    fg_color: Color::Default,
                    bg_color: Color::Default,
                    style: Style { bold: false, underline: false },
                    ..c
                }
            };
        let ghost m = self@;
        self.pen = plain(self.pen);
        if let Some(cell) = self.cursor_cell() {
            self.replace_cursor_cell(plain(cell));
        } else {
            proof {
                lemma_restyled_no_cell(m);
            }
        }
        proof {
            self.lemma_view_wf();
        }
    }

    pub fn set_bold(&mut self, bold: bool)
        requires
            old(self).wf(),
        ensures
            final(self).wf(),
            final(self)@ == old(self)@.restyled(|c: Cell| c.with_bold(bold)),
    {
        let ghost m = self@;
        self.pen = Cell { style: Style { bold, ..self.pen.style }, ..self.pen };
        if let Some(cell) = self.cursor_cell() {
            self.replace_cursor_cell(Cell { style: Style { bold, ..cell.style }, ..cell });
        } else {
            proof {
                lemma_restyled_no_cell(m);
            }
        }
        proof {
            self.lemma_view_wf();
        }
    }

    pub fn set_underline(&mut self, underline: bool)
        requires
            old(self).wf(),
        ensures
            final(self).wf(),
            final(self)@ == old(self)@.restyled(|c: Cell| c.with_underline(underline)),
    {
        let ghost m = self@;
        self.pen = Cell { style: Style { underline, ..self.pen.style }, ..self.pen };
        if let Some(cell) = self.cursor_cell() {
            self.replace_cursor_cell(Cell { style: Style { underline, ..cell.style }, ..cell });
        } else {
            proof {
                lemma_restyled_no_cell(m);
            }
        }
        proof {
            self.lemma_view_wf();
        }
    }

    /// Sets palette colour `color` as foreground of later characters and of the cell under the
    /// cursor.
    pub fn set_foreground_color(&mut self, color: u8)
        requires
            old(self).wf(),
        ensures
            final(self).wf(),
            final(self)@ == old(self)@.restyled(|c: Cell| c.with_fg(color)),
    {
        let ghost m = self@;
        self.pen = Cell { fg_color: Color::Indexed(color), ..self.pen };
        if let Some(cell) = self.cursor_cell() {
            self.replace_cursor_cell(Cell { fg_color: Color::Indexed(color), ..cell });
        } else {
            proof {
                lemma_restyled_no_cell(m);
            }
        }
        proof {
            self.lemma_view_wf();
        }
    }

    /// Sets palette colour `color` as background of later characters and of the cell under the
    /// cursor.
    pub fn set_background_color(&mut self, color: u8)
        requires
            old(self).wf(),
        ensures
            final(self).wf(),
            final(self)@ == old(self)@.restyled(|c: Cell| c.with_bg(color)),
    {
        let ghost m = self@;
        self.pen = Cell { bg_color: Color::Indexed(color), ..self.pen };
        if let Some(cell) = self.cursor_cell() {
            self.replace_cursor_cell(Cell { bg_color: Color::Indexed(color), ..cell });
        } else {
            proof {
                lemma_restyled_no_cell(m);
            }
        }
        proof {
            self.lemma_view_wf();
        }
    }

    /// One graphic-rendition parameter; unknown ones change nothing.
    fn apply_sgr_param(&mut self, p: u16)
        requires
            old(self).wf(),
        ensures
            final(self).wf(),
            final(self)@ == old(self)@.sgr_one(p),
    {
        let ghost m = self@;
        let ghost f = |c: Cell| restyle(c, p);
        if p == 0 {
            self.reset_attributes();
            proof { lemma_restyled_ext(m, |c: Cell| c.plain(), f); }
        } else if p == 1 {
            self.set_bold(true);
            proof { lemma_restyled_ext(m, |c: Cell| c.with_bold(true), f); }
        } else if p == 4 {
            self.set_underline(true);
            proof { lemma_restyled_ext(m, |c: Cell| c.with_underline(true), f); }
        } else if 30 <= p && p <= 37 {
            self.set_foreground_color((p - 30) as u8);
            proof { lemma_restyled_ext(m, |c: Cell| c.with_fg((p - 30) as u8), f); }
        } else if 40 <= p && p <= 47 {
            self.set_background_color((p - 40) as u8);
            proof { lemma_restyled_ext(m, |c: Cell| c.with_bg((p - 40) as u8), f); }
        } else {
            proof { lemma_restyled_ext(m, |c: Cell| c, f); }
            assert(m.restyled(|c: Cell| c) =~= m) by {
                let r = m.cursor_row();
                if 0 <= r < m.rows.len() && m.cx < m.rows[r].len() {
                    assert(m.rows[r].update(m.cx, m.rows[r][m.cx]) =~= m.rows[r]);
                    assert(m.rows.update(r, m.rows[r]) =~= m.rows);
                } else if 0 <= r < m.rows.len() {
                    assert(m.rows.update(r, m.rows[r]) =~= m.rows);
                }
            }
        }
    }

    /// The graphic-rendition parameters `params`, in order.
    fn apply_sgr(&mut self, params: &Vec<u16>)
        requires
            old(self).wf(),
        ensures
            final(self).wf(),
            final(self)@ == old(self)@.sgr(params@),
    {
        let ghost m = self@;
        let mut i: usize = 0;
        assert(params@.subrange(0, 0) =~= Seq::<u16>::empty());
        while i < params.len()
            invariant
                0 <= i <= params@.len(),
                self.wf(),
                self@ == m.sgr(params@.subrange(0, i as int)),
            decreases params@.len() - i,
        {
            self.apply_sgr_param(params[i]);
            assert(params@.subrange(0, i + 1).drop_last() =~= params@.subrange(0, i as int));
            i = i + 1;
        }
        assert(params@.subrange(0, params@.len() as int) =~= params@);
    }

    /// Erases part of the cursor's row: mode 0 from the cursor on, 1 up to the cursor, 2 all.
    fn erase_in_row(&mut self, mode: u16)
        requires
            old(self).wf(),
        ensures
            final(self).wf(),
            final(self)@ == old(self)@.erase_in_row(mode as int),
    {
        if let Some(r) = self.cursor_row_index() {
            let ghost before = self.rows@;
            if mode == 0 {
                row_erase_from_exec(&mut self.rows[r], self.cursor_x);
            } else if mode == 1 {
                row_erase_to_exec(&mut self.rows[r], self.cursor_x);
            } else if mode == 2 {
                row_clear_exec(&mut self.rows[r]);
            }
            proof {
                if mode <= 2 {
                    lemma_rows_update(before, self.rows@, r as int);
                } else {
                    assert(self.rows@ == before);
                }
            }
        }
        proof {
            self.lemma_view_wf();
        }
    }

    /// Erases part of the rows: mode 0 from the cursor on, 1 up to the cursor, 2 all.
    fn erase_in_display(&mut self, mode: u16)
        requires
            old(self).wf(),
        ensures
            final(self).wf(),
            final(self)@ == old(self)@.erase_in_display(mode as int),
    {
        let ghost m = self@;
        let len = self.rows.len();
        let r = self.viewport.top_row.saturating_add(self.cursor_y);
        rows_erase_display(&mut self.rows, r, self.cursor_x, mode);
        assert(self@.rows =~= m.erase_in_display(mode as int).rows) by {
            assert forall|i: int| 0 <= i < len implies ScreenModel::erase_display_row(
                m.rows[i],
                i,
                r as int,
                m.cx,
                mode as int,
            ) == #[trigger] ScreenModel::erase_display_row(
                m.rows[i],
                i,
                m.cursor_row(),
                m.cx,
                mode as int,
            ) by {}
        }
        proof {
            self.lemma_view_wf();
        }
    }

    /// Erases from the cursor to the end of the last row.
    pub fn erase_screen_from_cursor(&mut self)
        requires
            old(self).wf(),
        ensures
            final(self).wf(),
            final(self)@ == old(self)@.erase_in_display(0),
    {
        self.erase_in_display(0);
    }

    /// Erases from the start of the first row to the cursor, that cell included.
    pub fn erase_screen_to_cursor(&mut self)
        requires
            old(self).wf(),
        ensures
            final(self).wf(),
            final(self)@ == old(self)@.erase_in_display(1),
    {
        self.erase_in_display(1);
    }

    /// Empties every cell of every row; no row is removed.
    pub fn erase_screen(&mut self)
        requires
            old(self).wf(),
        ensures
            final(self).wf(),
            final(self)@ == old(self)@.erase_in_display(2),
    {
        self.erase_in_display(2);
    }

    /// Removes up to `n` cells at the cursor, moving the rest of its row left.
    fn delete_chars(&mut self, n: usize)
        requires
            old(self).wf(),
        ensures
            final(self).wf(),
            final(self)@ == old(self)@.map_cursor_row(
                |row: Seq<Cell>| row_delete(row, old(self)@.cx, n as int),
            ),
    {
        if let Some(r) = self.cursor_row_index() {
            let ghost before = self.rows@;
            row_delete_exec(&mut self.rows[r], self.cursor_x, n);
            proof {
                lemma_rows_update(before, self.rows@, r as int);
            }
        }
        proof {
            self.lemma_view_wf();
        }
    }

    /// Puts the cursor at line `y`, column `x` of the window, each clamped to the window.
    pub fn move_cursor(&mut self, x: usize, y: usize)
        requires
            old(self).wf(),
        ensures
            final(self).wf(),
            final(self)@ == old(self)@.move_to(x as int, y as int),
    {
        self.cursor_x = if x < self.viewport.width { x } else { self.viewport.width - 1 };
        self.cursor_y = if y < self.viewport.height { y } else { self.viewport.height - 1 };
        proof {
            self.lemma_view_wf();
        }
    }

    /// Moves the window `lines` rows toward older rows, stopping at the first row.
    pub fn scroll_up(&mut self, lines: usize)
        requires
            old(self).wf(),
        ensures
            final(self).wf(),
            final(self)@ == old(self)@.scrolled_up(lines as int),
    {
        let len = self.rows.len();
        self.viewport.scroll_up(lines, len);
        proof {
            self.lemma_view_wf();
        }
    }

    /// Moves the window `lines` rows toward newer rows, stopping where its last line shows the
    /// last row.
    pub fn scroll_down(&mut self, lines: usize)
        requires
            old(self).wf(),
        ensures
            final(self).wf(),
            final(self)@ == old(self)@.scrolled_down(lines as int),
    {
        let len = self.rows.len();
        self.viewport.scroll_down(lines, len);
        proof {
            self.lemma_view_wf();
        }
    }

    /// A control sequence with parameters `params` and final byte `action`; sequences this
    /// buffer does not know change nothing.
    pub fn csi_dispatch(&mut self, params: &Vec<u16>, action: u8)
        requires
            old(self).wf(),
        ensures
            final(self).wf(),
            final(self)@ == old(self)@.csi(params@, action),
    {
        if action == CSI_CURSOR_UP {
            let n = param_exec(params, 0, 1);
            self.cursor_y = self.cursor_y.saturating_sub(n);
        } else if action == CSI_CURSOR_DOWN {
            let n = param_exec(params, 0, 1);
            let last = self.viewport.height - 1;
            self.cursor_y = if n < last - self.cursor_y { self.cursor_y + n } else { last };
        } else if action == CSI_CURSOR_FORWARD {
            let n = param_exec(params, 0, 1);
            let last = self.viewport.width - 1;
            self.cursor_x = if n < last - self.cursor_x { self.cursor_x + n } else { last };
        } else if action == CSI_CURSOR_BACK {
            let n = param_exec(params, 0, 1);
            self.cursor_x = self.cursor_x.saturating_sub(n);
        } else if action == CSI_CURSOR_POSITION || action == CSI_POSITION_ALT {
            let row = param_exec(params, 0, 1);
            let col = param_exec(params, 1, 1);
            self.move_cursor(col - 1, row - 1);
        } else if action == CSI_ERASE_IN_ROW {
            let mode = mode_exec(params);
            self.erase_in_row(mode);
        } else if action == CSI_ERASE_IN_DISPLAY {
            let mode = mode_exec(params);
            self.erase_in_display(mode);
        } else if action == CSI_DELETE_CHARS {
            let n = param_exec(params, 0, 1);
            self.delete_chars(n);
        } else if action == CSI_GRAPHIC_RENDITION {
            self.apply_sgr(params);
        }
        proof {
            self.lemma_view_wf();
        }
    }

    /// The characters of the rows in the window, each row followed by a line break.
    pub fn render_viewport(&self) -> (s: String)
        ensures
            s@ == self@.viewport_text(),
    {
        let len = self.rows.len();
        let top = self.viewport.top_row;
        let start = if top < len { top } else { len };
        let end = if self.viewport.height < len - start { start + self.viewport.height } else { len };
        let ghost shown = rows_view(self.rows@).subrange(start as int, end as int);
        let mut s = String::new();
        let mut i: usize = start;
        assert(shown.subrange(0, 0) =~= Seq::<Seq<Cell>>::empty());
        while i < end
            invariant
                start <= i <= end,
                end <= len,
                len == self.rows@.len(),
                shown == rows_view(self.rows@).subrange(start as int, end as int),
                s@ == rows_text(shown.subrange(0, i - start)),
            decreases end - i,
        {
            let row = &self.rows[i];
            let ghost before = s@;
            let mut j: usize = 0;
            while j < row.len()
                invariant
                    0 <= j <= row@.len(),
                    s@ == before + row_text(row@.subrange(0, j as int)),
                decreases row@.len() - j,
            {
                push_char(&mut s, row[j].character);
                assert(row_text(row@.subrange(0, j + 1)) =~= row_text(row@.subrange(0, j as int)).push(row@[j as int].character));
                j = j + 1;
            }
            assert(row@.subrange(0, row@.len() as int) =~= row@);
            push_char(&mut s, '\n');
            assert(shown.subrange(0, i + 1 - start).drop_last() =~= shown.subrange(0, i - start));
            assert(shown.subrange(0, i + 1 - start).last() == row@);
            i = i + 1;
        }
        assert(shown.subrange(0, end - start) =~= shown);
        s
    }

    /// Acts on one parser action.
    pub fn dispatch(&mut self, e: &VtEvent)
        requires
            old(self).wf(),
        ensures
            final(self).wf(),
            final(self)@ == apply_event(old(self)@, *e),
    {
        match e {
            VtEvent::Print(c) => self.insert_char(*c),
            VtEvent::Execute(b) => self.execute(*b),
            VtEvent::Csi { params, action } => self.csi_dispatch(params, *action),
            _ => {},
        }
    }
}

} // verus!
