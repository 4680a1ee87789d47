use vstd::prelude::*;
use vstd::string::StrSliceExecFns;

verus! {

/// The character that marks a cell with nothing in it; renderers skip it.
pub const EMPTY_CHAR: char = '\0';

/// The colour of a cell's glyph or background.
#[derive(Clone, Copy, Debug, PartialEq, Eq, Structural)]
pub enum Color {
    Default,
    /// One of the eight basic palette colours, `0..=7`.
    Indexed(u8),
    RGB(u8, u8, u8),
}

#[derive(Clone, Copy, Debug, PartialEq, Eq, Structural)]
pub struct Style {
    pub bold: bool,
    pub underline: bool,
}

/// One character position of the grid, with its attributes.
#[derive(Clone, Copy, Debug, PartialEq, Eq, Structural)]
pub struct Cell {
    pub character: char,
    pub fg_color: Color,
    pub bg_color: Color,
    pub style: Style,
}

impl Style {
    pub open spec fn spec_default() -> Style {
        Style { bold: false, underline: false }
    }
}

impl Default for Style {
    fn default() -> (s: Style)
        ensures
            s == Style::spec_default(),
    {
        Style { bold: false, underline: false }
    }
}

impl Cell {
    /// The empty cell: no character, default colours, no style.
    pub open spec fn spec_default() -> Cell {
        Cell {
            character: EMPTY_CHAR,
            fg_color: Color::Default,
            bg_color: Color::Default,
            style: Style::spec_default(),
        }
    }

    /// The same attributes with another character.
    pub open spec fn with_char(self, c: char) -> Cell {
        Cell { character: c, ..self }
    }
}

impl Default for Cell {
    fn default() -> (c: Cell)
        ensures
            c == Cell::spec_default(),
    {
        Cell {
            character: EMPTY_CHAR,
            fg_color: Color::Default,
            bg_color: Color::Default,
            style: Style { bold: false, underline: false },
        }
    }
}

/// Relies on String::push: appends one character.
#[verifier::external_body]
pub(crate) fn push_char(s: &mut String, c: char)
    ensures
        final(s)@ == old(s)@.push(c),
{
    s.push(c);
}

/// A window of `height` rows over a longer sequence of rows, starting at `top_row`.
#[derive(Debug)]
pub struct Viewport {
    pub top_row: usize,
    pub height: usize,
    pub width: usize,
}

/// `a - b`, or zero where `b` is larger.
pub open spec fn sat_sub(a: int, b: int) -> int {
    if a >= b { a - b } else { 0 }
}

pub open spec fn min_int(a: int, b: int) -> int {
    if a <= b { a } else { b }
}

impl Viewport {
    pub fn new(height: usize, width: usize) -> (v: Viewport)
        ensures
            v.top_row == 0,
            v.height == height,
            v.width == width,
    {
        Viewport { top_row: 0, height, width }
    }

    /// Moves the window toward older rows by `amount`, stopping at the first row.
    pub fn scroll_up(&mut self, amount: usize, buffer_height: usize)
        ensures
            final(self).top_row == sat_sub(old(self).top_row as int, amount as int),
            final(self).height == old(self).height,
            final(self).width == old(self).width,
    {
        self.top_row = self.top_row.saturating_sub(amount);
    }

    /// Moves the window toward newer rows by `amount`, but never past the point where its last
    /// row is the last of the `buffer_height` rows.
    pub fn scroll_down(&mut self, amount: usize, buffer_height: usize)
        ensures
            final(self).top_row == min_int(
                old(self).top_row + amount,
                sat_sub(buffer_height as int, old(self).height as int),
            ),
            final(self).height == old(self).height,
            final(self).width == old(self).width,
    {
        let limit = buffer_height.saturating_sub(self.height);
        let moved = self.top_row.saturating_add(amount);
        self.top_row = if moved < limit { moved } else { limit };
    }
}

/// What a flat grid holds: its cells row after row, its size, and the first row shown.
pub struct TextModel {
    pub cells: Seq<Cell>,
    pub width: int,
    pub height: int,
    pub top: int,
    /// The number of rows the window shows; a resize leaves it as it was.
    pub window_height: int,
}

impl TextModel {
    pub open spec fn wf(self) -> bool {
        &&& 0 < self.width <= usize::MAX
        &&& 0 < self.height <= usize::MAX
        &&& 0 <= self.top <= usize::MAX
        &&& 0 <= self.window_height <= usize::MAX
    }

    /// The cell at row `row`, column `col`; one never written reads as empty.
    pub open spec fn cell(self, row: int, col: int) -> Cell {
        let i = row * self.width + col;
        if 0 <= i < self.cells.len() {
            self.cells[i]
        } else {
            Cell::spec_default()
        }
    }

    /// The cell shown at line `y`, column `x` of the window.
    pub open spec fn visible(self, y: int, x: int) -> Cell {
        self.cell(self.top + y, x)
    }

    /// The number of rows the cells fill, the last one possibly in part.
    pub open spec fn row_count(self) -> int {
        let len = self.cells.len() as int;
        if len % self.width == 0 {
            len / self.width
        } else {
            len / self.width + 1
        }
    }

    /// Character `c` at row `row`, column `col`, the other attributes of that cell kept, empty
    /// cells added up to it; a position whose index does not fit in a `usize` is ignored.
    pub open spec fn insert(self, row: int, col: int, c: char) -> TextModel {
        let i = row * self.width + col;
        let len = self.cells.len() as int;
        if i < usize::MAX {
            TextModel {
                cells: Seq::new(
                    if i < len { len as nat } else { (i + 1) as nat },
                    |j: int|
                        if j == i {
                            (if i < len { self.cells[i] } else { Cell::spec_default() }).with_char(c)
                        } else if j < len {
                            self.cells[j]
                        } else {
                            Cell::spec_default()
                        },
                ),
                ..self
            }
        } else {
            self
        }
    }

    /// The window moved one row toward newer rows, as far as the cells reach.
    pub open spec fn next_line(self) -> TextModel {
        TextModel {
            top: min_int(self.top + 1, sat_sub(self.row_count(), self.window_height)),
            ..self
        }
    }

    /// `c` written after the last cell of the first row of the window; a line break moves
    /// the window instead.
    pub open spec fn push(self, c: char) -> TextModel {
        if c == '\n' {
            self.next_line()
        } else {
            self.insert(self.top, (self.cells.len() as int) % self.width, c)
        }
    }

    pub open spec fn push_all(self, s: Seq<char>) -> TextModel
        decreases s.len(),
    {
        if s.len() == 0 {
            self
        } else {
            self.push_all(s.drop_last()).push(s.last())
        }
    }

    /// Every `(line, column, cell)` of the window, line after line.
    pub open spec fn triples(self) -> Seq<(usize, usize, Cell)> {
        Seq::new(
            (self.height * self.width) as nat,
            |k: int|
                (
                    (k / self.width) as usize,
                    (k % self.width) as usize,
                    self.visible(k / self.width, k % self.width),
                ),
        )
    }
}

/// Puts character `c` in cell `index`, keeping its other attributes, adding empty cells up to
/// it.
fn cells_put_char(cells: &mut Vec<Cell>, index: usize, c: char)
    requires
        index < usize::MAX,
    ensures
        final(cells)@ == Seq::new(
            if index < old(cells)@.len() { old(cells)@.len() } else { (index + 1) as nat },
            |j: int|
                if j == index {
                    (if index < old(cells)@.len() {
                        old(cells)@[index as int]
                    } else {
                        Cell::spec_default()
                    }).with_char(c)
                } else if j < old(cells)@.len() {
                    old(cells)@[j]
                } else {
                    Cell::spec_default()
                },
        ),
{
    let ghost start = cells@;
    while cells.len() <= index
        invariant
            index < usize::MAX,
            start.len() <= cells@.len(),
            cells@.len() <= index + 1 || cells@.len() == start.len(),
            forall|j: int| 0 <= j < start.len() ==> #[trigger] cells@[j] == start[j],
            forall|j: int|
                start.len() <= j < cells@.len() ==> #[trigger] cells@[j] == Cell::spec_default(),
        decreases index + 1 - cells@.len(),
    {
        cells.push(Cell::default());
    }
    let old_cell = cells[index];
    cells.set(index, Cell { character: c, ..old_cell });
    assert(cells@ =~= Seq::new(
        if index < start.len() { start.len() } else { (index + 1) as nat },
        |j: int|
            if j == index {
                (if index < start.len() { start[index as int] } else { Cell::spec_default() }).with_char(c)
            } else if j < start.len() {
                start[j]
            } else {
                Cell::spec_default()
            },
    ));
}

/// A flat grid of cells, row after row, with a window over its rows.
#[derive(Debug)]
pub struct Text {
    pub buffer: Vec<Cell>,
    width: usize,
    height: usize,
    viewport: Viewport,
}

impl View for Text {
    type V = TextModel;

    closed spec fn view(&self) -> TextModel {
        TextModel {
            cells: self.buffer@,
            width: self.width as int,
            height: self.height as int,
            top: self.viewport.top_row as int,
            window_height: self.viewport.height as int,
        }
    }
}

impl Text {
    pub open spec fn wf(&self) -> bool {
        self@.wf()
    }

    /// An empty grid of `height` rows of `width` cells.
    pub fn new(width: usize, height: usize) -> (t: Text)
        requires
            width > 0,
            height > 0,
        ensures
            t.wf(),
            t@.cells == Seq::<Cell>::empty(),
            t@.width == width,
            t@.height == height,
            t@.top == 0,
            t@.window_height == height,
    {
        let buffer = Vec::new();
        let viewport = Viewport::new(height, width);
        Text { buffer, width, height, viewport }
    }

    /// The index of row `row`, column `col`, where it fits in a `usize`.
    fn index_of(&self, row: usize, col: usize) -> (r: Option<usize>)
        ensures
            r is Some <==> row * self@.width + col <= usize::MAX,
            r matches Some(i) ==> i == row * self@.width + col,
    {
        match row.checked_mul(self.width) {
            Some(base) => base.checked_add(col),
            None => {
                assert(row * self.width + col > usize::MAX) by (nonlinear_arith)
                    requires
                        row * self.width > usize::MAX,
                        col >= 0,
                ;
                None
            },
        }
    }

    /// Puts character `c` at row `row`, column `col`, keeping that cell's other attributes and
    /// adding empty cells up to it.
    pub fn insert_char(&mut self, row: usize, col: usize, c: char)
        requires
            old(self).wf(),
        ensures
            final(self).wf(),
            final(self)@ == old(self)@.insert(row as int, col as int, c),
    {
        match self.index_of(row, col) {
            Some(index) => {
                if index < usize::MAX {
                    cells_put_char(&mut self.buffer, index, c);
                }
            },
            None => {},
        }
    }

    /// The cell at row `row`, column `col`, where it was written.
    pub fn get_cell(&self, row: usize, col: usize) -> (r: Option<&Cell>)
        ensures
            r is Some <==> row * self@.width + col < self@.cells.len(),
            r matches Some(c) ==> *c == self@.cell(row as int, col as int),
    {
        let len = self.buffer.len();
        match self.index_of(row, col) {
            Some(index) => {
                if index < len {
                    Some(&self.buffer[index])
                } else {
                    None
                }
            },
            None => None,
        }
    }

    /// The cell at row `row`, column `col`, for changing, where it was written.
    pub fn get_cell_mut(&mut self, row: usize, col: usize) -> (r: Option<&mut Cell>)
        requires
            old(self).wf(),
        ensures
            r is Some <==> row * old(self)@.width + col < old(self)@.cells.len(),
            r is None ==> final(self)@ == old(self)@,
            r matches Some(c) ==> *c == old(self)@.cell(row as int, col as int),
            r matches Some(c) ==> final(self)@ == (TextModel {
                cells: old(self)@.cells.update(row * old(self)@.width + col, *final(c)),
                ..old(self)@
            }),
            final(self).wf(),
    {
        let len = self.buffer.len();
        match self.index_of(row, col) {
            Some(index) => {
                if index < len {
                    Some(&mut self.buffer[index])
                } else {
                    None
                }
            },
            None => None,
        }
    }

    /// Gives the grid `new_height` rows of `new_width` cells. Only the cells of the first
    /// `min(height, new_height)` rows and `min(width, new_width)` columns are kept, row after
    /// row with the smaller width as the row length; a cell never written reads as empty. The
    /// window is left as it was.
    pub fn resize(&mut self, new_width: usize, new_height: usize)
        requires
            old(self).wf(),
            new_width > 0,
            new_height > 0,
        ensures
            final(self).wf(),
            final(self)@ == ({
                let kept_w = min_int(old(self)@.width, new_width as int);
                let kept_h = min_int(old(self)@.height, new_height as int);
                TextModel {
                    cells: Seq::new(
                        (kept_h * kept_w) as nat,
                        |k: int| old(self)@.cell(k / kept_w, k % kept_w),
                    ),
                    width: new_width as int,
                    height: new_height as int,
                    ..old(self)@
                }
            }),
    {
        let kept_w = if self.width < new_width { self.width } else { new_width };
        let kept_h = if self.height < new_height { self.height } else { new_height };
        let ghost m = self@;
        let mut cells: Vec<Cell> = Vec::new();
        let mut r: usize = 0;
        while r < kept_h
            invariant
                self@ == m,
                self.wf(),
                0 < kept_w,
                0 <= r <= kept_h,
                cells@.len() == r * kept_w,
                forall|j: int|
                    0 <= j < cells@.len() ==> #[trigger] cells@[j] == m.cell(
                        j / (kept_w as int),
                        j % (kept_w as int),
                    ),
            decreases kept_h - r,
        {
            let mut c: usize = 0;
            while c < kept_w
                invariant
                    self@ == m,
                    self.wf(),
                    0 < kept_w,
                    r < kept_h,
                    0 <= c <= kept_w,
                    cells@.len() == r * kept_w + c,
                    forall|j: int|
                        0 <= j < cells@.len() ==> #[trigger] cells@[j] == m.cell(
                            j / (kept_w as int),
                            j % (kept_w as int),
                        ),
                decreases kept_w - c,
            {
                let cell = match self.get_cell(r, c) {
                    Some(found) => *found,
                    None => Cell::default(),
                };
                proof {
                    let j = r * kept_w + c;
                    assert(j / (kept_w as int) == r && j % (kept_w as int) == c) by (nonlinear_arith)
                        requires
                            j == r * kept_w + c,
                            0 <= c < kept_w,
                            0 <= r,
                    ;
                }
                cells.push(cell);
                c = c + 1;
            }
            assert(r * kept_w + kept_w == (r + 1) * kept_w) by (nonlinear_arith);
            r = r + 1;
        }
        self.buffer = cells;
        self.width = new_width;
        self.height = new_height;
        proof {
            let kw = min_int(m.width, new_width as int);
            let kh = min_int(m.height, new_height as int);
            assert(kw == kept_w && kh == kept_h);
            assert(self@.cells =~= Seq::new(
                (kh * kw) as nat,
                |k: int| m.cell(k / kw, k % kw),
            ));
        }
    }

    /// Walks the window cell by cell, from its top left.
    pub fn iter(&self) -> (it: TextIterator<'_>)
        requires
            self.wf(),
        ensures
            it.wf(),
            it.grid() == self@,
            it.position() == (0int, 0int),
    {
        TextIterator { text_display: self, row: 0, col: 0 }
    }

    /// The number of rows the cells fill, the last one possibly in part.
    pub fn row_count(&self) -> (r: usize)
        requires
            self.wf(),
        ensures
            r == self@.row_count(),
    {
        let len = self.buffer.len();
        let w = self.width;
        if len % w == 0 {
            len / w
        } else {
            assert(len / w < usize::MAX) by (nonlinear_arith)
                requires
                    w >= 1,
                    len % w != 0,
                    len <= usize::MAX,
            {
                if w == 1 {
                    assert(len % w == 0);
                }
            }
            len / w + 1
        }
    }

    /// Moves the window `amount` rows toward older rows, stopping at the first row.
    pub fn scroll_up(&mut self, amount: usize)
        requires
            old(self).wf(),
        ensures
            final(self).wf(),
            final(self)@ == (TextModel { top: sat_sub(old(self)@.top, amount as int), ..old(self)@ }),
    {
        let rows = self.row_count();
        self.viewport.scroll_up(amount, rows);
    }

    /// Moves the window `amount` rows toward newer rows, stopping where its last line shows the
    /// last row.
    pub fn scroll_down(&mut self, amount: usize)
        requires
            old(self).wf(),
        ensures
            final(self).wf(),
            final(self)@ == (TextModel {
                top: min_int(
                    old(self)@.top + amount,
                    sat_sub(old(self)@.row_count(), old(self)@.window_height),
                ),
                ..old(self)@
            }),
    {
        let rows = self.row_count();
        self.viewport.scroll_down(amount, rows);
    }

    /// Moves the window one row toward newer rows.
    pub fn push_newline(&mut self)
        requires
            old(self).wf(),
        ensures
            final(self).wf(),
            final(self)@ == old(self)@.next_line(),
    {
        self.scroll_down(1);
    }

    /// Writes `c` after the last cell, on the first row of the window; a line break moves the
    /// window instead.
    pub fn push(&mut self, c: char)
        requires
            old(self).wf(),
        ensures
            final(self).wf(),
            final(self)@ == old(self)@.push(c),
    {
        if c == '\n' {
            self.push_newline();
        } else {
            let row = self.viewport.top_row;
            let col = self.buffer.len() % self.width;
            self.insert_char(row, col, c);
        }
    }

    /// Pushes each character of `s` in turn.
    pub fn push_str(&mut self, s: &str)
        requires
            old(self).wf(),
        ensures
            final(self).wf(),
            final(self)@ == old(self)@.push_all(s@),
    {
        let ghost start = self@;
        let n = s.unicode_len();
        let mut i: usize = 0;
        assert(s@.subrange(0, 0) =~= Seq::<char>::empty());
        while i < n
            invariant
                n == s@.len(),
                0 <= i <= n,
                self.wf(),
                self@ == start.push_all(s@.subrange(0, i as int)),
            decreases n - i,
        {
            let c = s.get_char(i);
            self.push(c);
            assert(s@.subrange(0, i + 1).drop_last() =~= s@.subrange(0, i as int));
            i = i + 1;
        }
        assert(s@.subrange(0, n as int) =~= s@);
    }

    /// The cell shown at line `y`, column `x` of the window.
    fn visible_cell(&self, y: usize, x: usize) -> (r: Cell)
        requires
            self.wf(),
        ensures
            r == self@.visible(y as int, x as int),
    {
        match self.viewport.top_row.checked_add(y) {
            Some(row) => match self.get_cell(row, x) {
                Some(c) => *c,
                None => Cell::default(),
            },
            None => {
                assert(self@.visible(y as int, x as int) == Cell::spec_default()) by {
                    assert(self@.cells.len() == self.buffer.len());
                    let r = self@.top + y;
                    let w = self@.width;
                    assert(r * w + x >= r) by (nonlinear_arith)
                        requires
                            w >= 1,
                            r >= 0,
                            x >= 0,
                    ;
                }
                Cell::default()
            },
        }
    }

    /// Every `(line, column, cell)` of the window, line after line; cells never written read
    /// as empty.
    pub fn render(&self) -> (r: Vec<(usize, usize, Cell)>)
        requires
            self.wf(),
            self@.height * self@.width <= usize::MAX,
        ensures
            r@ == self@.triples(),
    {
        let total = self.height * self.width;
        let mut r: Vec<(usize, usize, Cell)> = Vec::new();
        let mut k: usize = 0;
        while k < total
            invariant
                self.wf(),
                total == self@.height * self@.width,
                0 <= k <= total,
                r@ =~= self@.triples().subrange(0, k as int),
            decreases total - k,
        {
            let y = k / self.width;
            let x = k % self.width;
            let cell = self.visible_cell(y, x);
            r.push((y, x, cell));
            k = k + 1;
        }
        r
    }

    /// Every character of the cells, in order.
    pub fn as_str(&self) -> (s: String)
        ensures
            s@ == self@.cells.map_values(|c: Cell| c.character),
    {
        let mut s = String::new();
        let mut i: usize = 0;
        while i < self.buffer.len()
            invariant
                0 <= i <= self.buffer@.len(),
                s@ =~= self.buffer@.subrange(0, i as int).map_values(|c: Cell| c.character),
            decreases self.buffer@.len() - i,
        {
            push_char(&mut s, self.buffer[i].character);
            i = i + 1;
        }
        s
    }
}

/// A walk over the window of a `Text`, line after line.
#[derive(Debug)]
pub struct TextIterator<'a> {
    text_display: &'a Text,
    row: usize,
    col: usize,
}

impl<'a> TextIterator<'a> {
    pub closed spec fn grid(&self) -> TextModel {
        self.text_display@
    }

    /// The line and column of the next cell.
    pub closed spec fn position(&self) -> (int, int) {
        (self.row as int, self.col as int)
    }

    pub open spec fn wf(&self) -> bool {
        self.grid().wf() && 0 <= self.position().1 < self.grid().width
    }

    /// The next `(line, column, cell)` of the window, or `None` past its last line.
    pub fn next(&mut self) -> (r: Option<(usize, usize, Cell)>)
        requires
            old(self).wf(),
        ensures
            final(self).wf(),
            final(self).grid() == old(self).grid(),
            old(self).position().0 >= old(self).grid().height ==> r is None && final(self).position()
                == old(self).position(),
            old(self).position().0 < old(self).grid().height ==> {
                let (y, x) = old(self).position();
                &&& r == Some(
                    (y as usize, x as usize, old(self).grid().visible(y, x)),
                )
                &&& final(self).position() == if x + 1 < old(self).grid().width {
                    (y, x + 1)
                } else {
                    (y + 1, 0)
                }
            },
    {
        if self.row >= self.text_display.height {
            return None;
        }
        let cell = self.text_display.visible_cell(self.row, self.col);
        let item = (self.row, self.col, cell);
        if self.col + 1 < self.text_display.width {
            self.col = self.col + 1;
        } else {
            self.col = 0;
            self.row = self.row + 1;
        }
        Some(item)
    }
}

} // verus!
