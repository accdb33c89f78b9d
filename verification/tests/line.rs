use spinning_cube::buffer::{FrameBuffer, Glyph};
use spinning_cube::line::{draw_line, Pixel};

fn picture(buf: &FrameBuffer) -> Vec<String> {
    let mut rows = Vec::new();
    for y in 0..buf.height() {
        rows.push(String::from_utf8(buf.row(y).unwrap()).unwrap());
    }
    rows
}

fn drawn(width: u16, height: u16, from: (i32, i32), to: (i32, i32)) -> Vec<String> {
    let mut buf = FrameBuffer::new(width, height);
    draw_line(
        &mut buf,
        Pixel { x: from.0, y: from.1 },
        Pixel { x: to.0, y: to.1 },
        Glyph::Line,
    );
    picture(&buf)
}

/// The cells of a segment by its definition: after `i` of `n` steps each
/// coordinate has moved by its share, rounded to nearest with halves up.
fn expected_cells(from: (i32, i32), to: (i32, i32)) -> Vec<(i64, i64)> {
    let dx = to.0 as i64 - from.0 as i64;
    let dy = to.1 as i64 - from.1 as i64;
    let n = dx.abs().max(dy.abs());
    let mut cells = Vec::new();
    if n == 0 {
        cells.push((from.0 as i64, from.1 as i64));
        return cells;
    }
    for i in 0..=n {
        let x = from.0 as i64 + (2 * i * dx + n).div_euclid(2 * n);
        let y = from.1 as i64 + (2 * i * dy + n).div_euclid(2 * n);
        cells.push((x, y));
    }
    cells
}

fn expected_picture(width: u16, height: u16, from: (i32, i32), to: (i32, i32)) -> Vec<String> {
    let mut grid = vec![vec![b' '; width as usize]; height as usize];
    for (x, y) in expected_cells(from, to) {
        if 0 <= x && x < width as i64 && 0 <= y && y < height as i64 {
            grid[y as usize][x as usize] = b'#';
        }
    }
    grid.into_iter().map(|row| String::from_utf8(row).unwrap()).collect()
}

#[test]
fn horizontal_line() {
    assert_eq!(drawn(5, 3, (1, 1), (3, 1)), vec!["     ", " ### ", "     "]);
}

#[test]
fn vertical_line() {
    assert_eq!(drawn(3, 5, (1, 0), (1, 4)), vec![" # ", " # ", " # ", " # ", " # "]);
}

#[test]
fn diagonal_line() {
    assert_eq!(drawn(4, 4, (0, 0), (3, 3)), vec!["#   ", " #  ", "  # ", "   #"]);
}

#[test]
fn falling_diagonal_line() {
    assert_eq!(drawn(4, 4, (3, 0), (0, 3)), vec!["   #", "  # ", " #  ", "#   "]);
}

#[test]
fn single_point_line() {
    assert_eq!(drawn(3, 3, (1, 2), (1, 2)), vec!["   ", "   ", " # "]);
}

#[test]
fn shallow_line_rounds_halves_up() {
    // From (0,0) to (2,1) the middle step is half way between two rows and
    // goes to the lower one on screen, the greater row number.
    assert_eq!(drawn(3, 2, (0, 0), (2, 1)), vec!["#  ", " ##"]);
}

#[test]
fn shallow_line_exact_rows() {
    // Six steps to the right, two down: rows 0,0,1,1,1,2,2.
    assert_eq!(drawn(7, 3, (0, 0), (6, 2)), vec!["##     ", "  ###  ", "     ##"]);
}

#[test]
fn steep_line_exact_columns() {
    // Two steps to the right, five down: columns 0,0,1,1,2,2.
    assert_eq!(drawn(3, 6, (0, 0), (2, 5)), vec!["#  ", "#  ", " # ", " # ", "  #", "  #"]);
}

#[test]
fn line_upwards_and_leftwards() {
    assert_eq!(drawn(7, 3, (6, 2), (0, 0)), vec!["##     ", "  ###  ", "     ##"]);
}

#[test]
fn line_is_the_same_from_either_end() {
    for ax in -3..6 {
        for ay in -3..6 {
            for bx in -3..6 {
                for by in -3..6 {
                    assert_eq!(
                        drawn(4, 4, (ax, ay), (bx, by)),
                        drawn(4, 4, (bx, by), (ax, ay)),
                        "from ({ax},{ay}) to ({bx},{by})"
                    );
                }
            }
        }
    }
}

#[test]
fn line_matches_its_definition_on_small_grids() {
    for ax in -4..9 {
        for ay in -4..9 {
            for bx in -4..9 {
                for by in -4..9 {
                    assert_eq!(
                        drawn(5, 4, (ax, ay), (bx, by)),
                        expected_picture(5, 4, (ax, ay), (bx, by)),
                        "from ({ax},{ay}) to ({bx},{by})"
                    );
                }
            }
        }
    }
}

#[test]
fn line_includes_both_ends() {
    let mut buf = FrameBuffer::new(20, 20);
    draw_line(&mut buf, Pixel { x: 3, y: 17 }, Pixel { x: 16, y: 2 }, Glyph::Line);
    assert_eq!(buf.get(3, 17), Some(Glyph::Line));
    assert_eq!(buf.get(16, 2), Some(Glyph::Line));
}

#[test]
fn line_has_no_gaps() {
    let from = (2, 3);
    let to = (17, 9);
    let cells = expected_cells(from, to);
    let mut buf = FrameBuffer::new(20, 12);
    draw_line(
        &mut buf,
        Pixel { x: from.0, y: from.1 },
        Pixel { x: to.0, y: to.1 },
        Glyph::Line,
    );
    assert_eq!(cells.len(), 16);
    for pair in cells.windows(2) {
        assert!((pair[1].0 - pair[0].0).abs() <= 1);
        assert!((pair[1].1 - pair[0].1).abs() <= 1);
        assert_ne!(pair[0], pair[1]);
    }
    for (x, y) in cells {
        assert_eq!(buf.get(x as i32, y as i32), Some(Glyph::Line));
    }
}

#[test]
fn line_leaves_other_cells_alone() {
    let mut buf = FrameBuffer::new(4, 3);
    buf.plot(0, 2, Glyph::Marker);
    buf.plot(3, 0, Glyph::Marker);
    draw_line(&mut buf, Pixel { x: 0, y: 1 }, Pixel { x: 3, y: 1 }, Glyph::Line);
    assert_eq!(picture(&buf), vec!["   $", "####", "$   "]);
}

#[test]
fn line_draws_the_glyph_it_is_given() {
    let mut buf = FrameBuffer::new(3, 1);
    draw_line(&mut buf, Pixel { x: 0, y: 0 }, Pixel { x: 2, y: 0 }, Glyph::Marker);
    assert_eq!(picture(&buf), vec!["$$$"]);
    draw_line(&mut buf, Pixel { x: 1, y: 0 }, Pixel { x: 2, y: 0 }, Glyph::Blank);
    assert_eq!(picture(&buf), vec!["$  "]);
}

#[test]
fn line_is_clipped_on_the_left_and_right() {
    assert_eq!(drawn(4, 3, (-5, 1), (8, 1)), vec!["    ", "####", "    "]);
}

#[test]
fn line_is_clipped_at_the_top_and_bottom() {
    assert_eq!(drawn(3, 4, (2, -7), (2, 9)), vec!["  #", "  #", "  #", "  #"]);
}

#[test]
fn line_crossing_a_corner_is_clipped() {
    // From (-2,1) to (1,-2) the walk passes by the corner through (-1,0)
    // and (0,-1), both outside, so no cell of the grid is touched.
    assert_eq!(drawn(3, 3, (-2, 1), (1, -2)), vec!["   ", "   ", "   "]);
    // From (-1,1) to (1,-1) passes through (0,0).
    assert_eq!(drawn(3, 3, (-1, 1), (1, -1)), vec!["#  ", "   ", "   "]);
}

#[test]
fn line_entirely_outside_draws_nothing() {
    let blank = vec!["    ", "    ", "    "];
    assert_eq!(drawn(4, 3, (-10, -10), (-1, -1)), blank);
    assert_eq!(drawn(4, 3, (4, 0), (9, 2)), blank);
    assert_eq!(drawn(4, 3, (0, 3), (3, 8)), blank);
    assert_eq!(drawn(4, 3, (-3, 1), (-1, 1)), blank);
    assert_eq!(drawn(4, 3, (100, 100), (100, 100)), blank);
    assert_eq!(drawn(4, 3, (0, -5), (3, -1)), blank);
}

#[test]
fn line_on_an_empty_grid_draws_nothing() {
    assert_eq!(drawn(0, 3, (-2, 1), (2, 1)), vec!["", "", ""]);
    assert_eq!(drawn(3, 0, (1, -2), (1, 2)), Vec::<String>::new());
}

#[test]
fn line_between_the_farthest_ends_crosses_the_grid() {
    let rows = drawn(4, 4, (i32::MIN, i32::MIN), (i32::MAX, i32::MAX));
    assert_eq!(rows, vec!["#   ", " #  ", "  # ", "   #"]);
    let back = drawn(4, 4, (i32::MAX, i32::MAX), (i32::MIN, i32::MIN));
    assert_eq!(back, rows);
}

#[test]
fn far_falling_diagonal_crosses_the_grid() {
    // x + y == -1 along this segment, so it misses the grid by one cell.
    let rows = drawn(4, 4, (i32::MIN, i32::MAX), (i32::MAX, i32::MIN));
    assert_eq!(rows, vec!["    ", "    ", "    ", "    "]);
    // Shifted by four rows it runs through (0,3), (1,2), (2,1), (3,0).
    let rows = drawn(4, 4, (i32::MIN + 4, i32::MAX), (i32::MAX, i32::MIN + 4));
    assert_eq!(rows, vec!["   #", "  # ", " #  ", "#   "]);
}

#[test]
fn far_shallow_line_rising_slowly() {
    // Two thousand million steps right, nine rows down: over the few
    // columns of the grid the row is 5 throughout.
    let rows = drawn(6, 10, (-1_000_000_000, 0), (1_000_000_000, 9));
    for (y, row) in rows.iter().enumerate() {
        assert_eq!(row, if y == 5 { "######" } else { "      " });
    }
}

#[test]
fn far_shallow_line_falling_slowly() {
    // The same the other way up: row 5 at column 0, where the share is an
    // exact half, and row 4 from there on.
    let rows = drawn(6, 10, (-1_000_000_000, 9), (1_000_000_000, 0));
    assert_eq!(rows[5], "#     ");
    assert_eq!(rows[4], " #####");
    for (y, row) in rows.iter().enumerate() {
        if y != 4 && y != 5 {
            assert_eq!(row, "      ");
        }
    }
}

#[test]
fn far_steep_lines_match_their_definition() {
    let cases = [
        ((3, -2_000_000_000), (-4, 2_000_000_000)),
        ((-7, 2_000_000_000), (9, -2_000_000_000)),
        ((0, i32::MIN), (5, i32::MAX)),
        ((5, i32::MAX), (0, i32::MIN)),
    ];
    for (from, to) in cases {
        let mut expected = vec![vec![b' '; 6]; 5];
        let dx = to.0 as i128 - from.0 as i128;
        let dy = to.1 as i128 - from.1 as i128;
        let n = dx.abs().max(dy.abs());
        // Only the steps whose row lies in the grid need looking at.
        for y in 0..5i128 {
            let i = if dy > 0 { y - from.1 as i128 } else { from.1 as i128 - y };
            let x = from.0 as i128 + (2 * i * dx + n).div_euclid(2 * n);
            if 0 <= x && x < 6 {
                expected[y as usize][x as usize] = b'#';
            }
        }
        let expected: Vec<String> =
            expected.into_iter().map(|row| String::from_utf8(row).unwrap()).collect();
        assert_eq!(drawn(6, 5, from, to), expected, "from {from:?} to {to:?}");
    }
}

#[test]
fn long_line_through_a_wide_grid() {
    let rows = drawn(u16::MAX, 1, (i32::MIN, 0), (i32::MAX, 0));
    assert_eq!(rows.len(), 1);
    assert!(rows[0].bytes().all(|b| b == b'#'));
    assert_eq!(rows[0].len(), 65535);
}
