use vstd::prelude::*;

use crate::rectangle::{Border, BorderDirection, Point, Rectangle};
use crate::screen::Dimension;
use crate::style::Color;
use crate::text::{content_len, line_content, lines_of, split_lines};

verus! {

/// One character position's display data: a symbol and its two colors.
#[derive(Clone, Copy, PartialEq, Eq, Structural, Debug)]
pub struct Cell {
    pub symbol: char,
    pub foreground_color: Color,
    pub background_color: Color,
}

/// A cell tagged with the coordinate it must be (re)written at; produced
/// only as diff or enumeration output.
#[derive(Clone, Copy, PartialEq, Eq, Structural, Debug)]
pub struct PositionedCell {
    pub cell: Cell,
    pub position: Point,
}

/// A rectangular buffer of display cells: a screen snapshot.
#[derive(Clone, Debug, PartialEq)]
pub struct Grid {
    pub rows: Vec<Vec<Cell>>,
}

impl View for Grid {
    type V = Seq<Seq<Cell>>;

    open spec fn view(&self) -> Seq<Seq<Cell>> {
        Seq::new(self.rows@.len(), |r: int| self.rows@[r]@)
    }
}

/// The width of a buffer: the length of its rows, and 0 where the buffer
/// has no rows at all.
pub open spec fn grid_width(g: Seq<Seq<Cell>>) -> int {
    if g.len() == 0 {
        0
    } else {
        g[0].len() as int
    }
}

/// Every row has the same length: the buffer is rectangular.
pub open spec fn is_rectangular(g: Seq<Seq<Cell>>) -> bool {
    forall|r: int| 0 <= r < g.len() ==> (#[trigger] g[r]).len() == grid_width(g)
}

impl Cell {
    /// The blank cell used to fill fresh buffers: a space on the default
    /// color pair. Reused everywhere a blank is needed, so that equality
    /// (and hence the diff) treats all untouched cells alike.
    pub open spec fn blank() -> Cell {
        Cell { symbol: ' ', foreground_color: Color::White, background_color: Color::White }
    }

    /// A cell showing `c` on the default color pair.
    pub open spec fn of_char(c: char) -> Cell {
        Cell { symbol: c, foreground_color: Color::White, background_color: Color::White }
    }

    /// The cell a horizontal border line is drawn with: a box-drawing
    /// dash, black on the default background.
    pub open spec fn border_horizontal() -> Cell {
        Cell { symbol: '─', foreground_color: Color::Black, background_color: Color::White }
    }

    /// The cell a vertical border line is drawn with: a box-drawing bar,
    /// black on the default background.
    pub open spec fn border_vertical() -> Cell {
        Cell { symbol: '│', foreground_color: Color::Black, background_color: Color::White }
    }

    pub fn from_char(c: char) -> (cell: Cell)
        ensures
            cell == Cell::of_char(c),
    {
        Cell { symbol: c, foreground_color: Color::White, background_color: Color::White }
    }
}

impl Default for Cell {
    fn default() -> (cell: Cell)
        ensures
            cell == Cell::blank(),
    {
        Cell { symbol: ' ', foreground_color: Color::White, background_color: Color::White }
    }
}

/// The diff entry for position `(r, c)`: cell `cell` must be rewritten there.
pub open spec fn pos_cell(r: int, c: int, cell: Cell) -> PositionedCell {
    PositionedCell { cell, position: Point { row: r as usize, column: c as usize } }
}

/// Whether the old buffer holds, at `(r, c)`, exactly the cell `cell` —
/// when it does, the diff has nothing to emit for that position.
pub open spec fn old_has_match(old: Seq<Seq<Cell>>, r: int, c: int, cell: Cell) -> bool {
    0 <= r < old.len() && 0 <= c < old[r].len() && old[r][c] == cell
}

/// The diff entries of row `r` for columns `0 .. c` of the new row
/// `new_row`, in ascending column order: one entry per column whose new
/// cell is absent from or different in the old buffer.
pub open spec fn row_diff_upto(old: Seq<Seq<Cell>>, new_row: Seq<Cell>, r: int, c: int) -> Seq<
    PositionedCell,
>
    decreases c,
{
    if c <= 0 {
        Seq::empty()
    } else {
        row_diff_upto(old, new_row, r, c - 1) + if old_has_match(old, r, c - 1, new_row[c - 1]) {
            Seq::empty()
        } else {
            seq![pos_cell(r, c - 1, new_row[c - 1])]
        }
    }
}

/// The diff entries of rows `0 .. r` of the new buffer against the old
/// one, row-major: whole rows in ascending row order.
pub open spec fn diff_upto(old: Seq<Seq<Cell>>, new: Seq<Seq<Cell>>, r: int) -> Seq<PositionedCell>
    decreases r,
{
    if r <= 0 {
        Seq::empty()
    } else {
        diff_upto(old, new, r - 1) + row_diff_upto(old, new[r - 1], r - 1, new[r - 1].len() as int)
    }
}

/// The full diff of the new buffer against the old one: driven entirely by
/// the new buffer's extent, in row-major order.
pub open spec fn diff_spec(old: Seq<Seq<Cell>>, new: Seq<Seq<Cell>>) -> Seq<PositionedCell> {
    diff_upto(old, new, new.len() as int)
}

/// Every cell of columns `0 .. c` of `row` (which sits at row index `r`)
/// as a diff entry, in ascending column order.
pub open spec fn row_cells_upto(row: Seq<Cell>, r: int, c: int) -> Seq<PositionedCell>
    decreases c,
{
    if c <= 0 {
        Seq::empty()
    } else {
        row_cells_upto(row, r, c - 1).push(pos_cell(r, c - 1, row[c - 1]))
    }
}

/// Every cell of rows `0 .. r` of `g` as a diff entry, row-major.
pub open spec fn grid_cells_upto(g: Seq<Seq<Cell>>, r: int) -> Seq<PositionedCell>
    decreases r,
{
    if r <= 0 {
        Seq::empty()
    } else {
        grid_cells_upto(g, r - 1) + row_cells_upto(g[r - 1], r - 1, g[r - 1].len() as int)
    }
}

/// Every cell of `g` as a diff entry, in the same row-major order the diff
/// engine uses.
pub open spec fn grid_cells(g: Seq<Seq<Cell>>) -> Seq<PositionedCell> {
    grid_cells_upto(g, g.len() as int)
}

/// The cell that a block of text, split into `lines`, places at `(r, c)`:
/// the character of line `r` at column `c` on the default colors, and a
/// blank cell wherever the text has no character.
pub open spec fn text_cell(lines: Seq<Seq<char>>, r: int, c: int) -> Cell {
    if 0 <= r < lines.len() && 0 <= c < line_content(lines[r]).len() {
        Cell::of_char(line_content(lines[r])[c])
    } else {
        Cell::blank()
    }
}

impl Grid {
    /// The buffer's invariant: all rows share one length.
    pub open spec fn well_formed(&self) -> bool {
        is_rectangular(self@)
    }

    /// Compare this buffer (the old snapshot) against `new_grid` (the new
    /// one, not necessarily of the same size) and return, in row-major
    /// order over the new buffer's extent, every cell that must be
    /// rewritten: each position of the new buffer whose cell is absent
    /// from, or different in, the old buffer.
    pub fn diff(&self, new_grid: &Grid) -> (cells: Vec<PositionedCell>)
        ensures
            cells@ == diff_spec(self@, new_grid@),
    {
        let ghost og = self@;
        let ghost ng = new_grid@;
        let mut cells: Vec<PositionedCell> = Vec::new();
        let nrows = new_grid.rows.len();
        for r in 0..nrows
            invariant
                og == self@,
                ng == new_grid@,
                nrows == ng.len(),
                cells@ == diff_upto(og, ng, r as int),
        {
            let ghost nrow = ng[r as int];
            let row_len = new_grid.rows[r].len();
            for c in 0..row_len
                invariant
                    og == self@,
                    ng == new_grid@,
                    nrows == ng.len(),
                    r < nrows,
                    nrow == ng[r as int],
                    row_len == nrow.len(),
                    cells@ == diff_upto(og, ng, r as int) + row_diff_upto(
                        og,
                        nrow,
                        r as int,
                        c as int,
                    ),
            {
                let new_cell = new_grid.rows[r][c];
                let mut matched = false;
                if r < self.rows.len() {
                    if c < self.rows[r].len() {
                        matched = self.rows[r][c] == new_cell;
                    }
                }
                assert(matched == old_has_match(og, r as int, c as int, nrow[c as int]));
                if !matched {
                    cells.push(PositionedCell { cell: new_cell, position: Point { row: r, column: c } });
                }
                assert(cells@ == diff_upto(og, ng, r as int) + row_diff_upto(
                    og,
                    nrow,
                    r as int,
                    c as int + 1,
                ));
            }
            assert(cells@ == diff_upto(og, ng, r as int + 1));
        }
        cells
    }

    /// Every cell of this buffer as a positioned cell, in the same
    /// row-major order the diff engine emits: the full first paint,
    /// uniform with later incremental paints.
    pub fn to_position_cells(&self) -> (cells: Vec<PositionedCell>)
        ensures
            cells@ == grid_cells(self@),
    {
        let ghost g = self@;
        let mut cells: Vec<PositionedCell> = Vec::new();
        let height = self.rows.len();
        for r in 0..height
            invariant
                g == self@,
                height == g.len(),
                cells@ == grid_cells_upto(g, r as int),
        {
            let ghost grow = g[r as int];
            let row_len = self.rows[r].len();
            for c in 0..row_len
                invariant
                    g == self@,
                    height == g.len(),
                    r < height,
                    grow == g[r as int],
                    row_len == grow.len(),
                    cells@ == grid_cells_upto(g, r as int) + row_cells_upto(
                        grow,
                        r as int,
                        c as int,
                    ),
            {
                let cell = self.rows[r][c];
                cells.push(PositionedCell { cell, position: Point { row: r, column: c } });
                assert(cells@ == grid_cells_upto(g, r as int) + row_cells_upto(
                    grow,
                    r as int,
                    c as int + 1,
                ));
            }
            assert(cells@ == grid_cells_upto(g, r as int + 1));
        }
        cells
    }

    /// Allocate a `dimension.height` by `dimension.width` buffer filled
    /// with blank cells.
    pub fn new(dimension: Dimension) -> (grid: Grid)
        ensures
            grid.well_formed(),
            grid@.len() == dimension.height,
            forall|r: int| 0 <= r < grid@.len() ==> (#[trigger] grid@[r]).len() == dimension.width,
            forall|r: int, c: int|
                0 <= r < grid@.len() && 0 <= c < grid@[r].len() ==> grid@[r][c] == Cell::blank(),
    {
        let height = dimension.height as usize;
        let width = dimension.width as usize;
        let mut rows: Vec<Vec<Cell>> = Vec::new();
        for r in 0..height
            invariant
                rows@.len() == r,
                forall|i: int| 0 <= i < r ==> (#[trigger] rows@[i])@.len() == width,
                forall|i: int, j: int|
                    0 <= i < r && 0 <= j < width ==> rows@[i]@[j] == Cell::blank(),
        {
            let mut row: Vec<Cell> = Vec::new();
            for c in 0..width
                invariant
                    row@.len() == c,
                    forall|j: int| 0 <= j < c ==> row@[j] == Cell::blank(),
            {
                row.push(Cell { symbol: ' ', foreground_color: Color::White, background_color: Color::White });
            }
            rows.push(row);
        }
        Grid { rows }
    }

    /// Copy every cell of `other` into this buffer at the offset given by
    /// `rectangle.origin`; cells outside the overlay rectangle keep their
    /// values. The buffer is consumed and handed back, so no alias can
    /// observe a half-copied state. The overlay must fit: letting it run
    /// past the edge would silently desynchronize later diffs.
    pub fn update(self, other: &Grid, rectangle: Rectangle) -> (result: Grid)
        requires
            self.well_formed(),
            other.well_formed(),
            rectangle.origin.row + other@.len() <= self@.len(),
            rectangle.origin.column + grid_width(other@) <= grid_width(self@),
        ensures
            result.well_formed(),
            result@.len() == self@.len(),
            grid_width(result@) == grid_width(self@),
            forall|r: int, c: int|
                0 <= r < self@.len() && 0 <= c < grid_width(self@) ==> #[trigger] result@[r][c]
                    == if rectangle.origin.row <= r < rectangle.origin.row + other@.len()
                    && rectangle.origin.column <= c < rectangle.origin.column + grid_width(other@) {
                    other@[r - rectangle.origin.row][c - rectangle.origin.column]
                } else {
                    self@[r][c]
                },
    {
        let ghost s0 = self@;
        let ghost o = other@;
        let orow = rectangle.origin.row;
        let ocol = rectangle.origin.column;
        let mut grid = self;
        let self_height = grid.rows.len();
        let self_width = if self_height == 0 {
            0
        } else {
            grid.rows[0].len()
        };
        assert(self_height == s0.len() && self_width == grid_width(s0));
        let height = other.rows.len();
        for r in 0..height
            invariant
                o == other@,
                height == o.len(),
                orow == rectangle.origin.row,
                ocol == rectangle.origin.column,
                orow + o.len() <= s0.len(),
                ocol + grid_width(o) <= grid_width(s0),
                s0.len() <= usize::MAX,
                grid_width(s0) <= usize::MAX,
                is_rectangular(s0),
                is_rectangular(o),
                grid@.len() == s0.len(),
                forall|i: int| 0 <= i < s0.len() ==> (#[trigger] grid@[i]).len() == s0[i].len(),
                forall|i: int, j: int|
                    0 <= i < s0.len() && 0 <= j < s0[i].len() ==> #[trigger] grid@[i][j]
                        == if orow <= i < orow + r && ocol <= j < ocol + grid_width(o) {
                        o[i - orow][j - ocol]
                    } else {
                        s0[i][j]
                    },
        {
            let ghost orow_seq = o[r as int];
            let row_len = other.rows[r].len();
            for c in 0..row_len
                invariant
                    o == other@,
                    height == o.len(),
                    r < height,
                    orow == rectangle.origin.row,
                    ocol == rectangle.origin.column,
                    orow + o.len() <= s0.len(),
                    ocol + grid_width(o) <= grid_width(s0),
                    s0.len() <= usize::MAX,
                    grid_width(s0) <= usize::MAX,
                    is_rectangular(s0),
                    is_rectangular(o),
                    orow_seq == o[r as int],
                    row_len == orow_seq.len(),
                    row_len == grid_width(o),
                    grid@.len() == s0.len(),
                    forall|i: int| 0 <= i < s0.len() ==> (#[trigger] grid@[i]).len() == s0[i].len(),
                    forall|i: int, j: int|
                        0 <= i < s0.len() && 0 <= j < s0[i].len() ==> #[trigger] grid@[i][j]
                            == if orow <= i < orow + r && ocol <= j < ocol + grid_width(o) {
                            o[i - orow][j - ocol]
                        } else {
                            if i == orow + r && ocol <= j < ocol + c {
                                o[i - orow][j - ocol]
                            } else {
                                s0[i][j]
                            }
                        },
            {
                let cell = other.rows[r][c];
                let ghost gprev = grid@;
                let tr = orow + r;
                let tc = ocol + c;
                assert(grid@[tr as int].len() == s0[tr as int].len() && s0[tr as int].len()
                    == grid_width(s0));
                grid.rows[tr][tc] = cell;
                proof {
                    assert(grid@ =~= gprev.update(
                        tr as int,
                        gprev[tr as int].update(tc as int, cell),
                    ));
                }
            }
        }
        grid
    }

    /// Fill a fresh `dimension`-sized buffer from already-split lines of
    /// text: line `r`, column `c` lands in cell `(r, c)` on the default
    /// colors, with each line's terminating break dropped. Cells beyond
    /// the text keep the blank value; text beyond the dimension is
    /// clamped away.
    pub fn from_lines(dimension: Dimension, lines: &Vec<Vec<char>>) -> (grid: Grid)
        ensures
            grid.well_formed(),
            grid@.len() == dimension.height,
            forall|r: int| 0 <= r < grid@.len() ==> (#[trigger] grid@[r]).len() == dimension.width,
            forall|r: int, c: int|
                0 <= r < grid@.len() && 0 <= c < grid@[r].len() ==> #[trigger] grid@[r][c]
                    == text_cell(lines.deep_view(), r, c),
    {
        let ghost lv = lines.deep_view();
        let height = dimension.height as usize;
        let width = dimension.width as usize;
        let mut grid = Grid::new(dimension);
        let row_limit = if lines.len() < height {
            lines.len()
        } else {
            height
        };
        for r in 0..row_limit
            invariant
                lv == lines.deep_view(),
                row_limit <= lv.len(),
                row_limit <= height,
                height == dimension.height,
                width == dimension.width,
                grid@.len() == height,
                forall|i: int| 0 <= i < grid@.len() ==> (#[trigger] grid@[i]).len() == width,
                forall|i: int, j: int|
                    0 <= i < height && 0 <= j < width ==> #[trigger] grid@[i][j] == if i < r {
                        text_cell(lv, i, j)
                    } else {
                        Cell::blank()
                    },
        {
            let line = &lines[r];
            proof {
                assert(lv[r as int] =~= line@.map_values(|ch: char| ch));
                assert(lv[r as int] =~= line@);
            }
            let n = content_len(line);
            let col_limit = if n < width {
                n
            } else {
                width
            };
            for c in 0..col_limit
                invariant
                    lv == lines.deep_view(),
                    r < row_limit,
                    row_limit <= lv.len(),
                    row_limit <= height,
                    height == dimension.height,
                    width == dimension.width,
                    col_limit <= width,
                    col_limit <= n,
                    lv[r as int] == line@,
                    n <= line@.len(),
                    line_content(line@) == line@.subrange(0, n as int),
                    grid@.len() == height,
                    forall|i: int| 0 <= i < grid@.len() ==> (#[trigger] grid@[i]).len() == width,
                    forall|i: int, j: int|
                        0 <= i < height && 0 <= j < width ==> #[trigger] grid@[i][j] == if i
                            < r {
                            text_cell(lv, i, j)
                        } else {
                            if i == r && j < c {
                                text_cell(lv, i, j)
                            } else {
                                Cell::blank()
                            }
                        },
            {
                let ghost gprev = grid@;
                let cell = Cell::from_char(line[c]);
                assert(grid@[r as int].len() == width);
                grid.rows[r][c] = cell;
                proof {
                    assert(grid@ =~= gprev.update(
                        r as int,
                        gprev[r as int].update(c as int, cell),
                    ));
                    assert(line_content(lv[r as int])[c as int] == line@[c as int]);
                }
            }
            assert(forall|j: int|
                col_limit <= j < width ==> text_cell(lv, r as int, j) == Cell::blank());
        }
        grid
    }

    /// Build a `dimension`-sized buffer from a block of text, one cell
    /// per character, row by row and column by column; see `from_lines`.
    pub fn from_text(dimension: Dimension, text: &str) -> (grid: Grid)
        ensures
            grid.well_formed(),
            grid@.len() == dimension.height,
            forall|r: int| 0 <= r < grid@.len() ==> (#[trigger] grid@[r]).len() == dimension.width,
            forall|r: int, c: int|
                0 <= r < grid@.len() && 0 <= c < grid@[r].len() ==> #[trigger] grid@[r][c]
                    == text_cell(lines_of(text@), r, c),
    {
        let lines = split_lines(text);
        Grid::from_lines(dimension, &lines)
    }

    /// Paint a straight line of box-drawing cells from `border.start` to
    /// the buffer's edge in the given direction. A start at or beyond the
    /// buffer's extent paints nothing: borders are cosmetic, so a
    /// degenerate request must not fault.
    pub fn set_border(self, border: Border) -> (result: Grid)
        requires
            self.well_formed(),
        ensures
            result.well_formed(),
            result@.len() == self@.len(),
            grid_width(result@) == grid_width(self@),
            border.direction == BorderDirection::Horizontal ==> forall|r: int, c: int|
                0 <= r < self@.len() && 0 <= c < grid_width(self@) ==> #[trigger] result@[r][c]
                    == if r == border.start.row && border.start.column <= c {
                    Cell::border_horizontal()
                } else {
                    self@[r][c]
                },
            border.direction == BorderDirection::Vertical ==> forall|r: int, c: int|
                0 <= r < self@.len() && 0 <= c < grid_width(self@) ==> #[trigger] result@[r][c]
                    == if c == border.start.column && border.start.row <= r {
                    Cell::border_vertical()
                } else {
                    self@[r][c]
                },
            border.start.row >= self@.len() || border.start.column >= grid_width(self@)
                ==> result == self,
    {
        let ghost s0 = self@;
        let height = self.rows.len();
        let width = if height == 0 {
            0
        } else {
            self.rows[0].len()
        };
        assert(height == s0.len() && width == grid_width(s0));
        let mut grid = self;
        if border.start.row < height && border.start.column < width {
            match border.direction {
                BorderDirection::Horizontal => {
                    let row = border.start.row;
                    let mut c = border.start.column;
                    while c < width
                        invariant
                            border.start.column <= c <= width,
                            row == border.start.row,
                            row < s0.len(),
                            height == s0.len(),
                            width == grid_width(s0),
                            is_rectangular(s0),
                            grid@.len() == s0.len(),
                            forall|i: int|
                                0 <= i < s0.len() ==> (#[trigger] grid@[i]).len() == s0[i].len(),
                            forall|i: int, j: int|
                                0 <= i < s0.len() && 0 <= j < s0[i].len() ==> #[trigger] grid@[i][j]
                                    == if i == row && border.start.column <= j < c {
                                    Cell::border_horizontal()
                                } else {
                                    s0[i][j]
                                },
                        decreases width - c,
                    {
                        let ghost gprev = grid@;
                        assert(grid@[row as int].len() == s0[row as int].len() && s0[
                            row as int
                        ].len() == grid_width(s0));
                        grid.rows[row][c] = Cell {
                            symbol: '─',
                            foreground_color: Color::Black,
                            background_color: Color::White,
                        };
                        proof {
                            assert(grid@ =~= gprev.update(
                                row as int,
                                gprev[row as int].update(c as int, Cell::border_horizontal()),
                            ));
                        }
                        c += 1;
                    }
                },
                BorderDirection::Vertical => {
                    let column = border.start.column;
                    let mut r = border.start.row;
                    while r < height
                        invariant
                            border.start.row <= r <= height,
                            column == border.start.column,
                            column < grid_width(s0),
                            height == s0.len(),
                            width == grid_width(s0),
                            is_rectangular(s0),
                            grid@.len() == s0.len(),
                            forall|i: int|
                                0 <= i < s0.len() ==> (#[trigger] grid@[i]).len() == s0[i].len(),
                            forall|i: int, j: int|
                                0 <= i < s0.len() && 0 <= j < s0[i].len() ==> #[trigger] grid@[i][j]
                                    == if j == column && border.start.row <= i < r {
                                    Cell::border_vertical()
                                } else {
                                    s0[i][j]
                                },
                        decreases height - r,
                    {
                        let ghost gprev = grid@;
                        assert(grid@[r as int].len() == s0[r as int].len() && s0[r as int].len()
                            == grid_width(s0));
                        grid.rows[r][column] = Cell {
                            symbol: '│',
                            foreground_color: Color::Black,
                            background_color: Color::White,
                        };
                        proof {
                            assert(grid@ =~= gprev.update(
                                r as int,
                                gprev[r as int].update(column as int, Cell::border_vertical()),
                            ));
                        }
                        r += 1;
                    }
                },
            }
        }
        grid
    }

    /// The buffer's size. A buffer with no rows has width 0.
    pub fn dimension(&self) -> (dimension: Dimension)
        requires
            self.well_formed(),
            self@.len() <= u16::MAX,
            grid_width(self@) <= u16::MAX,
        ensures
            dimension.height == self@.len(),
            dimension.width == grid_width(self@),
    {
        let height = self.rows.len() as u16;
        let width = if self.rows.len() == 0 {
            0
        } else {
            self.rows[0].len() as u16
        };
        Dimension { height, width }
    }
}

/// What every diff entry `e` of `new` against `old` says: its position
/// lies within the new buffer's extent, its cell is the new buffer's cell
/// there, and the old buffer does not already hold that cell there.
pub open spec fn diff_entry_for(old: Seq<Seq<Cell>>, new: Seq<Seq<Cell>>, e: PositionedCell) -> bool {
    &&& (e.position.row as int) < new.len()
    &&& (e.position.column as int) < new[e.position.row as int].len()
    &&& e.cell == new[e.position.row as int][e.position.column as int]
    &&& !old_has_match(old, e.position.row as int, e.position.column as int, e.cell)
}

/// Row-major order on diff entries: `a` comes strictly before `b`.
pub open spec fn row_major_before(a: PositionedCell, b: PositionedCell) -> bool {
    ||| a.position.row < b.position.row
    ||| (a.position.row == b.position.row && a.position.column < b.position.column)
}

proof fn lemma_concat_contains<T>(a: Seq<T>, b: Seq<T>, x: T)
    requires
        a.contains(x) || b.contains(x),
    ensures
        (a + b).contains(x),
{
    if a.contains(x) {
        let i = choose|i: int| 0 <= i < a.len() && a[i] == x;
        assert((a + b)[i] == x);
    } else {
        let i = choose|i: int| 0 <= i < b.len() && b[i] == x;
        assert((a + b)[a.len() + i] == x);
    }
}

proof fn lemma_row_diff_identical_empty(g: Seq<Seq<Cell>>, r: int, c: int)
    requires
        0 <= r < g.len(),
        0 <= c <= g[r].len(),
    ensures
        row_diff_upto(g, g[r], r, c) == Seq::<PositionedCell>::empty(),
    decreases c,
{
    if c > 0 {
        lemma_row_diff_identical_empty(g, r, c - 1);
        assert(old_has_match(g, r, c - 1, g[r][c - 1]));
        assert(row_diff_upto(g, g[r], r, c) =~= Seq::<PositionedCell>::empty());
    }
}

proof fn lemma_diff_upto_identical_empty(g: Seq<Seq<Cell>>, r: int)
    requires
        0 <= r <= g.len(),
    ensures
        diff_upto(g, g, r) == Seq::<PositionedCell>::empty(),
    decreases r,
{
    if r > 0 {
        lemma_diff_upto_identical_empty(g, r - 1);
        lemma_row_diff_identical_empty(g, r - 1, g[r - 1].len() as int);
        assert(diff_upto(g, g, r) =~= Seq::<PositionedCell>::empty());
    }
}

/// Law: diffing a buffer against itself yields no entries at all.
pub proof fn lemma_diff_identical_empty(g: Seq<Seq<Cell>>)
    ensures
        diff_spec(g, g) == Seq::<PositionedCell>::empty(),
{
    lemma_diff_upto_identical_empty(g, g.len() as int);
}

proof fn lemma_row_diff_props(old: Seq<Seq<Cell>>, row: Seq<Cell>, r: int, c: int)
    requires
        0 <= r <= usize::MAX,
        0 <= c <= row.len(),
        row.len() <= usize::MAX,
    ensures
        forall|i: int|
            0 <= i < row_diff_upto(old, row, r, c).len() ==> {
                &&& (#[trigger] row_diff_upto(old, row, r, c)[i]).position.row == r
                &&& row_diff_upto(old, row, r, c)[i].position.column < c
                &&& row_diff_upto(old, row, r, c)[i].cell == row[row_diff_upto(
                    old,
                    row,
                    r,
                    c,
                )[i].position.column as int]
                &&& !old_has_match(
                    old,
                    r,
                    row_diff_upto(old, row, r, c)[i].position.column as int,
                    row_diff_upto(old, row, r, c)[i].cell,
                )
            },
        forall|i: int, j: int|
            0 <= i < j < row_diff_upto(old, row, r, c).len() ==> (#[trigger] row_diff_upto(
                old,
                row,
                r,
                c,
            )[i]).position.column < (#[trigger] row_diff_upto(old, row, r, c)[j]).position.column,
        forall|cc: int|
            0 <= cc < c && !old_has_match(old, r, cc, row[cc]) ==> row_diff_upto(
                old,
                row,
                r,
                c,
            ).contains(#[trigger] pos_cell(r, cc, row[cc])),
    decreases c,
{
    if c > 0 {
        lemma_row_diff_props(old, row, r, c - 1);
        let prefix = row_diff_upto(old, row, r, c - 1);
        let whole = row_diff_upto(old, row, r, c);
        if old_has_match(old, r, c - 1, row[c - 1]) {
            assert(whole =~= prefix);
        } else {
            assert(whole =~= prefix.push(pos_cell(r, c - 1, row[c - 1])));
            assert(whole[whole.len() - 1] == pos_cell(r, c - 1, row[c - 1]));
        }
        assert forall|cc: int| 0 <= cc < c && !old_has_match(old, r, cc, row[cc]) implies whole
            .contains(#[trigger] pos_cell(r, cc, row[cc])) by {
            if cc < c - 1 {
                lemma_concat_contains(
                    prefix,
                    whole.subrange(prefix.len() as int, whole.len() as int),
                    pos_cell(r, cc, row[cc]),
                );
                assert(whole =~= prefix + whole.subrange(prefix.len() as int, whole.len() as int));
            } else {
                assert(whole[whole.len() - 1] == pos_cell(r, cc, row[cc]));
            }
        }
    }
}

proof fn lemma_diff_upto_props(old: Seq<Seq<Cell>>, new: Seq<Seq<Cell>>, r: int)
    requires
        0 <= r <= new.len(),
        new.len() <= usize::MAX,
        forall|k: int| 0 <= k < new.len() ==> (#[trigger] new[k]).len() <= usize::MAX,
    ensures
        forall|i: int|
            0 <= i < diff_upto(old, new, r).len() ==> diff_entry_for(
                old,
                new,
                #[trigger] diff_upto(old, new, r)[i],
            ) && diff_upto(old, new, r)[i].position.row < r,
        forall|i: int, j: int|
            0 <= i < j < diff_upto(old, new, r).len() ==> row_major_before(
                #[trigger] diff_upto(old, new, r)[i],
                #[trigger] diff_upto(old, new, r)[j],
            ),
        forall|rr: int, cc: int|
            0 <= rr < r && 0 <= cc < new[rr].len() && !old_has_match(old, rr, cc, new[rr][cc])
                ==> diff_upto(old, new, r).contains(#[trigger] pos_cell(rr, cc, new[rr][cc])),
    decreases r,
{
    if r > 0 {
        lemma_diff_upto_props(old, new, r - 1);
        lemma_row_diff_props(old, new[r - 1], r - 1, new[r - 1].len() as int);
        let prefix = diff_upto(old, new, r - 1);
        let last = row_diff_upto(old, new[r - 1], r - 1, new[r - 1].len() as int);
        let whole = diff_upto(old, new, r);
        assert(whole == prefix + last);
        assert forall|i: int|
            0 <= i < whole.len() implies diff_entry_for(old, new, #[trigger] whole[i])
            && whole[i].position.row < r by {
            if i < prefix.len() {
                assert(whole[i] == prefix[i]);
            } else {
                assert(whole[i] == last[i - prefix.len()]);
            }
        }
        assert forall|i: int, j: int|
            0 <= i < j < whole.len() implies row_major_before(
            #[trigger] whole[i],
            #[trigger] whole[j],
        ) by {
            if i < prefix.len() && j >= prefix.len() {
                assert(whole[i] == prefix[i]);
                assert(whole[j] == last[j - prefix.len()]);
                assert(whole[i].position.row < r - 1);
                assert(whole[j].position.row == r - 1);
            } else if j < prefix.len() {
                assert(whole[i] == prefix[i] && whole[j] == prefix[j]);
            } else {
                assert(whole[i] == last[i - prefix.len()] && whole[j] == last[j - prefix.len()]);
            }
        }
        assert forall|rr: int, cc: int|
            0 <= rr < r && 0 <= cc < new[rr].len() && !old_has_match(
                old,
                rr,
                cc,
                new[rr][cc],
            ) implies whole.contains(#[trigger] pos_cell(rr, cc, new[rr][cc])) by {
            if rr < r - 1 {
                lemma_concat_contains(prefix, last, pos_cell(rr, cc, new[rr][cc]));
            } else {
                assert(last.contains(pos_cell(rr, cc, new[rr][cc])));
                lemma_concat_contains(prefix, last, pos_cell(rr, cc, new[rr][cc]));
            }
        }
    }
}

/// Law: the diff is driven by the new buffer's extent alone. Every entry
/// lies within that extent and rewrites a position whose cell really
/// changed — so shrinking never emits positions outside the new buffer,
/// however much the old buffer held there.
pub proof fn lemma_diff_within_new_extent(old: Seq<Seq<Cell>>, new: Seq<Seq<Cell>>)
    requires
        new.len() <= usize::MAX,
        forall|k: int| 0 <= k < new.len() ==> (#[trigger] new[k]).len() <= usize::MAX,
    ensures
        forall|i: int|
            0 <= i < diff_spec(old, new).len() ==> diff_entry_for(
                old,
                new,
                #[trigger] diff_spec(old, new)[i],
            ),
{
    lemma_diff_upto_props(old, new, new.len() as int);
}

/// Law: the diff is complete: every position of the new buffer whose cell
/// the old buffer does not already hold gets an entry.
pub proof fn lemma_diff_covers_changes(old: Seq<Seq<Cell>>, new: Seq<Seq<Cell>>)
    requires
        new.len() <= usize::MAX,
        forall|k: int| 0 <= k < new.len() ==> (#[trigger] new[k]).len() <= usize::MAX,
    ensures
        forall|r: int, c: int|
            0 <= r < new.len() && 0 <= c < new[r].len() && !old_has_match(old, r, c, new[r][c])
                ==> diff_spec(old, new).contains(#[trigger] pos_cell(r, c, new[r][c])),
{
    lemma_diff_upto_props(old, new, new.len() as int);
}

/// Law: growing is covered: every new position beyond the old buffer's
/// extent gets an entry.
pub proof fn lemma_diff_covers_growth(old: Seq<Seq<Cell>>, new: Seq<Seq<Cell>>, r: int, c: int)
    requires
        new.len() <= usize::MAX,
        forall|k: int| 0 <= k < new.len() ==> (#[trigger] new[k]).len() <= usize::MAX,
        0 <= r < new.len(),
        0 <= c < new[r].len(),
        r >= old.len() || c >= old[r].len(),
    ensures
        diff_spec(old, new).contains(pos_cell(r, c, new[r][c])),
{
    lemma_diff_covers_changes(old, new);
}

/// Law: diff output is ordered row-major, row then column strictly
/// ascending; with the diff being a function of the two buffers alone,
/// repeated calls on identical inputs give identically ordered output.
pub proof fn lemma_diff_row_major_order(old: Seq<Seq<Cell>>, new: Seq<Seq<Cell>>)
    requires
        new.len() <= usize::MAX,
        forall|k: int| 0 <= k < new.len() ==> (#[trigger] new[k]).len() <= usize::MAX,
    ensures
        forall|i: int, j: int|
            0 <= i < j < diff_spec(old, new).len() ==> row_major_before(
                #[trigger] diff_spec(old, new)[i],
                #[trigger] diff_spec(old, new)[j],
            ),
{
    lemma_diff_upto_props(old, new, new.len() as int);
}

proof fn lemma_row_cells_props(row: Seq<Cell>, r: int, c: int)
    requires
        0 <= r <= usize::MAX,
        0 <= c <= row.len(),
        row.len() <= usize::MAX,
    ensures
        row_cells_upto(row, r, c).len() == c,
        forall|j: int|
            0 <= j < c ==> #[trigger] row_cells_upto(row, r, c)[j] == pos_cell(r, j, row[j]),
    decreases c,
{
    if c > 0 {
        lemma_row_cells_props(row, r, c - 1);
    }
}

proof fn lemma_grid_cells_upto_props(g: Seq<Seq<Cell>>, r: int)
    requires
        is_rectangular(g),
        0 <= r <= g.len(),
        g.len() <= usize::MAX,
        grid_width(g) <= usize::MAX,
    ensures
        grid_cells_upto(g, r).len() == r * grid_width(g),
        forall|rr: int, cc: int|
            0 <= rr < r && 0 <= cc < grid_width(g) ==> #[trigger] grid_cells_upto(g, r)[rr
                * grid_width(g) + cc] == pos_cell(rr, cc, g[rr][cc]),
    decreases r,
{
    let w = grid_width(g);
    if r > 0 {
        lemma_grid_cells_upto_props(g, r - 1);
        lemma_row_cells_props(g[r - 1], r - 1, g[r - 1].len() as int);
        let prefix = grid_cells_upto(g, r - 1);
        let last = row_cells_upto(g[r - 1], r - 1, g[r - 1].len() as int);
        assert((r - 1) * w + w == r * w) by (nonlinear_arith);
        assert forall|rr: int, cc: int|
            0 <= rr < r && 0 <= cc < w implies #[trigger] grid_cells_upto(g, r)[rr * w + cc]
            == pos_cell(rr, cc, g[rr][cc]) by {
            assert(0 <= rr * w + cc) by (nonlinear_arith)
                requires 0 <= rr && 0 <= cc && 0 <= w;
            if rr < r - 1 {
                assert(rr * w + cc < (r - 1) * w) by (nonlinear_arith)
                    requires 0 <= cc < w && 0 <= rr && rr <= r - 2;
                assert(grid_cells_upto(g, r)[rr * w + cc] == prefix[rr * w + cc]);
            } else {
                assert(rr * w + cc - (r - 1) * w == cc) by (nonlinear_arith)
                    requires rr == r - 1;
                assert(grid_cells_upto(g, r)[rr * w + cc] == last[cc]);
            }
        }
    } else {
        assert(0 * w == 0) by (nonlinear_arith);
    }
}

/// Law: the full paint is complete: a rectangular buffer enumerates to
/// exactly height times width entries, the entry for position `(r, c)`
/// standing at row-major index `r * width + c` and carrying the source
/// cell there.
pub proof fn lemma_full_paint_complete(g: Seq<Seq<Cell>>)
    requires
        is_rectangular(g),
        g.len() <= usize::MAX,
        grid_width(g) <= usize::MAX,
    ensures
        grid_cells(g).len() == g.len() * grid_width(g),
        forall|r: int, c: int|
            0 <= r < g.len() && 0 <= c < grid_width(g) ==> #[trigger] grid_cells(g)[r * grid_width(
                g,
            ) + c] == pos_cell(r, c, g[r][c]),
{
    lemma_grid_cells_upto_props(g, g.len() as int);
}

proof fn lemma_row_cells_as_diff(row: Seq<Cell>, r: int, c: int)
    requires
        0 <= c <= row.len(),
    ensures
        row_cells_upto(row, r, c) == row_diff_upto(Seq::<Seq<Cell>>::empty(), row, r, c),
    decreases c,
{
    if c > 0 {
        lemma_row_cells_as_diff(row, r, c - 1);
        assert(row_cells_upto(row, r, c) =~= row_diff_upto(Seq::<Seq<Cell>>::empty(), row, r, c));
    }
}

proof fn lemma_grid_cells_as_diff(g: Seq<Seq<Cell>>, r: int)
    requires
        0 <= r <= g.len(),
    ensures
        grid_cells_upto(g, r) == diff_upto(Seq::<Seq<Cell>>::empty(), g, r),
    decreases r,
{
    if r > 0 {
        lemma_grid_cells_as_diff(g, r - 1);
        lemma_row_cells_as_diff(g[r - 1], r - 1, g[r - 1].len() as int);
    }
}

/// Law: the full paint and the diff share one ordering: enumerating a
/// buffer is exactly diffing it against a predecessor with no rows, so a
/// first full paint and later incremental paints can be consumed
/// uniformly.
pub proof fn lemma_full_paint_is_diff_from_empty(g: Seq<Seq<Cell>>)
    ensures
        grid_cells(g) == diff_spec(Seq::<Seq<Cell>>::empty(), g),
{
    lemma_grid_cells_as_diff(g, g.len() as int);
}

} // verus!
