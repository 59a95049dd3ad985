use cell_grid::grid::{Cell, Grid, PositionedCell};
use cell_grid::rectangle::{Border, BorderDirection, Point, Rectangle};
use cell_grid::screen::Dimension;
use cell_grid::style::Color;

fn entry(row: usize, column: usize, symbol: char) -> PositionedCell {
    PositionedCell { cell: Cell::from_char(symbol), position: Point { row, column } }
}

#[test]
fn diff_same_size() {
    let dimension = Dimension { height: 2, width: 4 };
    let old = Grid::from_text(dimension, "a\nbc");
    let new = Grid::from_text(dimension, "bc");
    let actual = old.diff(&new);
    let expected = vec![
        PositionedCell { position: Point { row: 0, column: 0 }, cell: Cell::from_char('b') },
        PositionedCell { position: Point { row: 0, column: 1 }, cell: Cell::from_char('c') },
        PositionedCell { position: Point { row: 1, column: 0 }, cell: Cell::from_char(' ') },
        PositionedCell { position: Point { row: 1, column: 1 }, cell: Cell::from_char(' ') },
    ];
    assert_eq!(actual, expected);
}

#[test]
fn diff_equal_buffers_is_empty() {
    let dimension = Dimension { height: 2, width: 3 };
    let grid = Grid::from_text(dimension, "hi\nyo");
    assert_eq!(grid.diff(&grid), vec![]);
}

#[test]
fn diff_repeated_calls_identical() {
    let dimension = Dimension { height: 2, width: 2 };
    let old = Grid::from_text(dimension, "ab\ncd");
    let new = Grid::from_text(dimension, "xb\ncy");
    let first = old.diff(&new);
    let second = old.diff(&new);
    assert_eq!(first, second);
    assert_eq!(first, vec![entry(0, 0, 'x'), entry(1, 1, 'y')]);
}

#[test]
fn diff_shrink_stays_within_new_extent() {
    let old = Grid::from_text(Dimension { height: 2, width: 2 }, "ab\ncd");
    let new = Grid::from_text(Dimension { height: 1, width: 1 }, "x");
    let actual = old.diff(&new);
    assert_eq!(actual, vec![entry(0, 0, 'x')]);
    for positioned in &actual {
        assert!(positioned.position.row < 1 && positioned.position.column < 1);
    }
}

#[test]
fn diff_grow_covers_every_new_position() {
    let old = Grid::new(Dimension { height: 1, width: 1 });
    let new = Grid::from_text(Dimension { height: 2, width: 2 }, "ab\ncd");
    let actual = old.diff(&new);
    let expected = vec![entry(0, 0, 'a'), entry(0, 1, 'b'), entry(1, 0, 'c'), entry(1, 1, 'd')];
    assert_eq!(actual, expected);
}

#[test]
fn diff_output_is_row_major() {
    let old = Grid::new(Dimension { height: 3, width: 3 });
    let new = Grid::from_text(Dimension { height: 3, width: 3 }, "a b\n c\nd");
    let actual = old.diff(&new);
    for window in actual.windows(2) {
        let earlier = window[0].position;
        let later = window[1].position;
        assert!(
            earlier.row < later.row || (earlier.row == later.row && earlier.column < later.column)
        );
    }
}

#[test]
fn to_position_cells_enumerates_all() {
    let dimension = Dimension { height: 2, width: 2 };
    let grid = Grid::from_text(dimension, "ab");
    let actual = grid.to_position_cells();
    let expected = vec![entry(0, 0, 'a'), entry(0, 1, 'b'), entry(1, 0, ' '), entry(1, 1, ' ')];
    assert_eq!(actual.len(), 4);
    assert_eq!(actual, expected);
}

#[test]
fn to_position_cells_matches_diff_from_empty() {
    let grid = Grid::from_text(Dimension { height: 2, width: 2 }, "ab\ncd");
    let empty = Grid { rows: vec![] };
    assert_eq!(grid.to_position_cells(), empty.diff(&grid));
}

#[test]
fn update_overlays_and_keeps_the_rest() {
    let base = Grid::from_text(Dimension { height: 3, width: 3 }, "abc\ndef\nghi");
    let overlay = Grid::from_text(Dimension { height: 1, width: 2 }, "XY");
    let rectangle = Rectangle {
        origin: Point { row: 1, column: 1 },
        dimension: Dimension { height: 1, width: 2 },
    };
    let updated = base.update(&overlay, rectangle);
    let expected = Grid::from_text(Dimension { height: 3, width: 3 }, "abc\ndXY\nghi");
    assert_eq!(updated, expected);
}

#[test]
fn set_border_horizontal_paints_to_the_edge() {
    let grid = Grid::from_text(Dimension { height: 2, width: 3 }, "abc\ndef");
    let bordered = grid.set_border(Border {
        direction: BorderDirection::Horizontal,
        start: Point { row: 0, column: 1 },
    });
    let line = Cell {
        symbol: '─',
        foreground_color: Color::Black,
        background_color: Color::White,
    };
    assert_eq!(bordered.rows[0][0], Cell::from_char('a'));
    assert_eq!(bordered.rows[0][1], line);
    assert_eq!(bordered.rows[0][2], line);
    assert_eq!(bordered.rows[1][0], Cell::from_char('d'));
    assert_eq!(bordered.rows[1][1], Cell::from_char('e'));
    assert_eq!(bordered.rows[1][2], Cell::from_char('f'));
}

#[test]
fn set_border_vertical_paints_to_the_edge() {
    let grid = Grid::from_text(Dimension { height: 3, width: 2 }, "ab\ncd\nef");
    let bordered = grid.set_border(Border {
        direction: BorderDirection::Vertical,
        start: Point { row: 1, column: 0 },
    });
    let line = Cell {
        symbol: '│',
        foreground_color: Color::Black,
        background_color: Color::White,
    };
    assert_eq!(bordered.rows[0][0], Cell::from_char('a'));
    assert_eq!(bordered.rows[1][0], line);
    assert_eq!(bordered.rows[2][0], line);
    assert_eq!(bordered.rows[1][1], Cell::from_char('d'));
}

#[test]
fn set_border_out_of_bounds_is_a_no_op() {
    let grid = Grid::from_text(Dimension { height: 2, width: 2 }, "ab\ncd");
    let row_too_far = grid.clone().set_border(Border {
        direction: BorderDirection::Horizontal,
        start: Point { row: 5, column: 0 },
    });
    assert_eq!(row_too_far, grid);
    let column_too_far = grid.clone().set_border(Border {
        direction: BorderDirection::Vertical,
        start: Point { row: 0, column: 7 },
    });
    assert_eq!(column_too_far, grid);
}

#[test]
fn new_fills_with_blank_cells() {
    let grid = Grid::new(Dimension { height: 2, width: 2 });
    for row in &grid.rows {
        for cell in row {
            assert_eq!(*cell, Cell::default());
            assert_eq!(cell.symbol, ' ');
            assert_eq!(cell.foreground_color, Color::White);
            assert_eq!(cell.background_color, Color::White);
        }
    }
}

#[test]
fn zero_height_buffer_has_width_zero() {
    let grid = Grid::new(Dimension { height: 0, width: 5 });
    let dimension = grid.dimension();
    assert_eq!(dimension.height, 0);
    assert_eq!(dimension.width, 0);
    assert_eq!(grid.to_position_cells(), vec![]);
    assert_eq!(grid.diff(&grid), vec![]);
}

#[test]
fn from_text_clamps_oversized_text() {
    let grid = Grid::from_text(Dimension { height: 1, width: 2 }, "abcd\nef");
    assert_eq!(grid.rows.len(), 1);
    assert_eq!(grid.rows[0], vec![Cell::from_char('a'), Cell::from_char('b')]);
}

#[test]
fn from_text_drops_line_breaks() {
    let grid = Grid::from_text(Dimension { height: 2, width: 2 }, "a\nb");
    assert_eq!(grid.rows[0][1], Cell::default());
    let crlf = Grid::from_text(Dimension { height: 2, width: 3 }, "ab\r\ncd");
    assert_eq!(crlf.rows[0][2], Cell::default());
    assert_eq!(crlf.rows[1][0], Cell::from_char('c'));
    assert_eq!(crlf.rows[1][1], Cell::from_char('d'));
}

#[test]
fn from_char_uses_default_colors() {
    let cell = Cell::from_char('z');
    assert_eq!(cell.symbol, 'z');
    assert_eq!(cell.foreground_color, Color::White);
    assert_eq!(cell.background_color, Color::White);
}
