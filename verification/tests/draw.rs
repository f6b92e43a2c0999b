use pixmap::draw::{Circle, Draw, Line, Square};
use pixmap::{Image, ImageError, Rgba};

const INK: [u8; 4] = [255, 0, 0, 255];

/// The positions whose pixel holds the ink, row by row.
fn inked(img: &Image) -> Vec<(usize, usize)> {
    let (w, _) = img.shape();
    let cells = img.as_bytes().len() / 4;
    let mut out = Vec::new();
    for k in 0..cells {
        if img.as_bytes()[4 * k..4 * k + 4] == INK {
            out.push((k / w, k % w));
        }
    }
    out
}

#[test]
fn circle_without_radius_is_refused_and_colors_nothing() {
    let mut img = Image::new(5, 5);
    for x in 0..5 {
        for y in 0..5 {
            assert_eq!(Circle::new(0).draw(&mut img, x, y, Rgba::red()), Err(ImageError::DegenerateGeometry));
        }
    }
    assert!(inked(&img).is_empty());
    assert!(img.as_bytes().iter().all(|b| *b == 0));
}

#[test]
fn square_without_length_is_refused_and_colors_nothing() {
    let mut img = Image::new(5, 5);
    assert_eq!(Square::new(0).draw(&mut img, 2, 2, Rgba::red()), Err(ImageError::DegenerateGeometry));
    assert!(inked(&img).is_empty());
}

#[test]
fn circle_of_radius_one_is_a_plus() {
    let mut img = Image::new(5, 5);
    assert_eq!(Circle::new(1).draw(&mut img, 2, 2, Rgba::red()), Ok(()));
    assert_eq!(inked(&img), vec![(1, 2), (2, 1), (2, 2), (2, 3), (3, 2)]);
}

#[test]
fn circle_off_the_edges_is_the_disc_around_its_center() {
    for r in 1..4usize {
        let mut img = Image::new(9, 9);
        let (cx, cy) = (4usize, 4usize);
        assert_eq!(Circle::new(r).draw(&mut img, cx, cy, Rgba::red()), Ok(()));
        for row in 0..9usize {
            for col in 0..9usize {
                let dx = col as i64 - cx as i64;
                let dy = row as i64 - cy as i64;
                let inside = dx * dx + dy * dy <= (r * r) as i64;
                let want = if inside { INK } else { [0, 0, 0, 0] };
                assert_eq!(img.at(row, col).unwrap().as_array(), want);
            }
        }
    }
}

#[test]
fn circle_of_radius_two_has_thirteen_pixels() {
    let mut img = Image::new(7, 7);
    assert_eq!(Circle::new(2).draw(&mut img, 3, 3, Rgba::red()), Ok(()));
    assert_eq!(inked(&img).len(), 13);
    assert_eq!(img.at(1, 3).unwrap().as_array(), INK);
    assert_eq!(img.at(1, 2).unwrap().as_array(), [0, 0, 0, 0]);
    assert_eq!(img.at(2, 2).unwrap().as_array(), INK);
}

#[test]
fn circle_off_center_writes_row_and_column_swapped() {
    let mut img = Image::new(8, 8);
    // center in column 5, row 2
    assert_eq!(Circle::new(1).draw(&mut img, 5, 2, Rgba::red()), Ok(()));
    assert_eq!(inked(&img), vec![(1, 5), (2, 4), (2, 5), (2, 6), (3, 5)]);
}

#[test]
fn circle_cut_by_a_corner_is_measured_from_the_middle_of_its_box() {
    let mut img = Image::new(5, 5);
    // the box is [0, 2] x [0, 2], its middle (1, 1): every point of it lies
    // within 2 of the middle
    assert_eq!(Circle::new(2).draw(&mut img, 0, 0, Rgba::red()), Ok(()));
    assert_eq!(
        inked(&img),
        vec![(0, 0), (0, 1), (0, 2), (1, 0), (1, 1), (1, 2), (2, 0), (2, 1), (2, 2)]
    );
}

#[test]
fn circle_cut_by_the_far_edge_is_measured_from_the_middle_of_its_box() {
    let mut img = Image::new(6, 6);
    // columns [3, 5], rows [2, 4]: the middle is column 4, row 3
    assert_eq!(Circle::new(1).draw(&mut img, 4, 3, Rgba::red()), Ok(()));
    assert_eq!(inked(&img), vec![(2, 4), (3, 3), (3, 4), (3, 5), (4, 4)]);
    let mut img = Image::new(6, 6);
    // columns [4, 5], rows [2, 4]: the middle is column 4, row 3
    assert_eq!(Circle::new(1).draw(&mut img, 5, 3, Rgba::red()), Ok(()));
    assert_eq!(inked(&img), vec![(2, 4), (3, 4), (3, 5), (4, 4)]);
}

#[test]
fn circle_larger_than_the_image_fills_it() {
    let mut img = Image::new(3, 3);
    assert_eq!(Circle::new(100).draw(&mut img, 1, 1, Rgba::red()), Ok(()));
    assert_eq!(inked(&img).len(), 9);
    let mut img = Image::new(3, 3);
    assert_eq!(Circle::new(usize::MAX).draw(&mut img, usize::MAX, 0, Rgba::red()), Ok(()));
    assert_eq!(inked(&img).len(), 9);
}

#[test]
fn circle_far_off_the_image_draws_nothing() {
    let mut img = Image::new(3, 3);
    assert_eq!(Circle::new(1).draw(&mut img, usize::MAX, 1, Rgba::red()), Ok(()));
    assert_eq!(Circle::new(2).draw(&mut img, 1, 5, Rgba::red()), Ok(()));
    assert_eq!(Square::new(2).draw(&mut img, 5, 5, Rgba::red()), Ok(()));
    assert!(inked(&img).is_empty());
}

#[test]
fn circle_on_an_empty_image_draws_nothing() {
    let mut img = Image::new(0, 0);
    assert_eq!(Circle::new(3).draw(&mut img, 0, 0, Rgba::red()), Ok(()));
    let mut img = Image::new(0, 4);
    assert_eq!(Circle::new(3).draw(&mut img, 1, 1, Rgba::red()), Ok(()));
    let mut img = Image::new(4, 0);
    assert_eq!(Square::new(3).draw(&mut img, 1, 1, Rgba::red()), Ok(()));
}

#[test]
fn circle_on_a_wide_image_stops_at_the_first_pixel_outside() {
    let mut img = Image::new(10, 5);
    // column 6 is no row of the image, and row 2 column 6 is no pixel as
    // (row, column) = (2, 6) demands a column below the height
    assert_eq!(Circle::new(1).draw(&mut img, 7, 2, Rgba::red()), Err(ImageError::OutOfBounds));
    assert!(inked(&img).is_empty());
    // columns [3, 5]: (2, 3), (1, 4), (2, 4), (3, 4) are written, (2, 5) is not
    assert_eq!(Circle::new(1).draw(&mut img, 4, 2, Rgba::red()), Err(ImageError::OutOfBounds));
    assert_eq!(inked(&img), vec![(1, 4), (2, 3), (2, 4), (3, 4)]);
}

#[test]
fn square_off_the_edges_is_the_block_around_its_center() {
    for r in 1..4usize {
        let mut img = Image::new(9, 9);
        assert_eq!(Square::new(r).draw(&mut img, 4, 4, Rgba::red()), Ok(()));
        for row in 0..9usize {
            for col in 0..9usize {
                let inside = row + r >= 4 && row <= 4 + r && col + r >= 4 && col <= 4 + r;
                let want = if inside { INK } else { [0, 0, 0, 0] };
                assert_eq!(img.at(row, col).unwrap().as_array(), want);
            }
        }
        assert_eq!(inked(&img).len(), (2 * r + 1) * (2 * r + 1));
    }
}

#[test]
fn square_writes_row_first() {
    let mut img = Image::new(8, 8);
    assert_eq!(Square::new(1).draw(&mut img, 5, 2, Rgba::red()), Ok(()));
    assert_eq!(
        inked(&img),
        vec![(4, 1), (4, 2), (4, 3), (5, 1), (5, 2), (5, 3), (6, 1), (6, 2), (6, 3)]
    );
}

#[test]
fn square_is_cut_to_the_image() {
    let mut img = Image::new(4, 4);
    assert_eq!(Square::new(2).draw(&mut img, 0, 3, Rgba::red()), Ok(()));
    assert_eq!(inked(&img), vec![(0, 1), (0, 2), (0, 3), (1, 1), (1, 2), (1, 3), (2, 1), (2, 2), (2, 3)]);
    let mut img = Image::new(4, 4);
    assert_eq!(Square::new(usize::MAX).draw(&mut img, 2, 2, Rgba::red()), Ok(()));
    assert_eq!(inked(&img).len(), 16);
}

#[test]
fn square_on_a_wide_image_keeps_what_it_wrote_before_it_failed() {
    let mut img = Image::new(7, 3);
    assert_eq!(Square::new(1).draw(&mut img, 3, 1, Rgba::red()), Err(ImageError::OutOfBounds));
    // rows of 7: (2, 0), (2, 1), (2, 2) were written, (3, 0) lies past the end
    assert_eq!(inked(&img), vec![(2, 0), (2, 1), (2, 2)]);
}

#[test]
fn line_along_the_diagonal_with_width_one_colors_nothing_off_it() {
    let mut img = Image::new(5, 5);
    assert_eq!(Line::new(1).draw(&mut img, (0, 0), (4, 4), Rgba::red()), Ok(()));
    for (row, col) in inked(&img) {
        assert_eq!(row, col);
    }
    // half of the width, rounded down, is nothing
    assert!(inked(&img).is_empty());
}

#[test]
fn line_along_the_diagonal_with_width_two() {
    let mut img = Image::new(6, 6);
    assert_eq!(Line::new(2).draw(&mut img, (1, 1), (4, 4), Rgba::red()), Ok(()));
    assert_eq!(inked(&img), vec![(1, 0), (1, 1), (2, 1), (2, 2), (3, 2), (3, 3)]);
    let mut wide = Image::new(6, 6);
    assert_eq!(Line::new(3).draw(&mut wide, (1, 1), (4, 4), Rgba::red()), Ok(()));
    assert_eq!(wide.as_bytes(), img.as_bytes());
}

#[test]
fn line_rounds_half_rows_away_from_zero() {
    let mut img = Image::new(8, 8);
    // slope one half: rows 0, 0.5, 1, 1.5 for the columns 1, 2, 3, 4
    assert_eq!(Line::new(2).draw(&mut img, (1, 0), (5, 2), Rgba::red()), Ok(()));
    assert_eq!(inked(&img), vec![(0, 0), (0, 1), (1, 1), (1, 2), (1, 3), (2, 3), (2, 4)]);
}

#[test]
fn line_with_a_slope_of_a_third() {
    let mut img = Image::new(10, 10);
    // rows 1, 1.33, 1.67, 2, 2.33, 2.67 for the columns 2..8
    assert_eq!(Line::new(2).draw(&mut img, (2, 1), (8, 3), Rgba::red()), Ok(()));
    assert_eq!(
        inked(&img),
        vec![(1, 1), (1, 2), (1, 3), (2, 3), (2, 4), (2, 5), (2, 6), (3, 6), (3, 7)]
    );
}

#[test]
fn line_that_falls() {
    let mut img = Image::new(6, 6);
    assert_eq!(Line::new(2).draw(&mut img, (1, 4), (5, 0), Rgba::red()), Ok(()));
    assert_eq!(inked(&img), vec![(1, 3), (1, 4), (2, 2), (2, 3), (3, 1), (3, 2), (4, 0), (4, 1)]);
}

#[test]
fn line_that_is_level() {
    let mut img = Image::new(6, 6);
    assert_eq!(Line::new(4).draw(&mut img, (2, 3), (4, 3), Rgba::red()), Ok(()));
    assert_eq!(inked(&img), vec![(3, 0), (3, 1), (3, 2), (3, 3), (3, 4)]);
}

#[test]
fn line_between_points_of_one_column_is_refused() {
    let mut img = Image::new(5, 5);
    assert_eq!(Line::new(2).draw(&mut img, (2, 0), (2, 4), Rgba::red()), Err(ImageError::DegenerateGeometry));
    assert_eq!(Line::new(0).draw(&mut img, (0, 0), (0, 0), Rgba::red()), Err(ImageError::DegenerateGeometry));
    assert!(inked(&img).is_empty());
}

#[test]
fn line_from_right_to_left_draws_nothing() {
    let mut img = Image::new(5, 5);
    assert_eq!(Line::new(2).draw(&mut img, (4, 4), (1, 1), Rgba::red()), Ok(()));
    assert!(inked(&img).is_empty());
}

#[test]
fn line_that_begins_left_of_the_image_is_out_of_bounds() {
    let mut img = Image::new(5, 5);
    assert_eq!(Line::new(2).draw(&mut img, (0, 0), (4, 4), Rgba::red()), Err(ImageError::OutOfBounds));
    assert!(inked(&img).is_empty());
}

#[test]
fn line_that_leaves_the_image_keeps_what_it_wrote() {
    let mut img = Image::new(4, 4);
    assert_eq!(Line::new(2).draw(&mut img, (1, 1), (9, 9), Rgba::red()), Err(ImageError::OutOfBounds));
    assert_eq!(inked(&img), vec![(1, 0), (1, 1), (2, 1), (2, 2), (3, 2), (3, 3)]);
}

#[test]
fn line_with_far_endpoints_does_not_overflow() {
    let mut img = Image::new(4, 4);
    let far = usize::MAX;
    assert_eq!(Line::new(far).draw(&mut img, (far - 2, far), (far, far), Rgba::red()), Err(ImageError::OutOfBounds));
    assert_eq!(Line::new(2).draw(&mut img, (1, far), (far, 0), Rgba::red()), Err(ImageError::OutOfBounds));
    assert!(inked(&img).is_empty());
}

#[test]
fn drawing_keeps_the_shape_of_the_image() {
    let mut img = Image::new(6, 4);
    let _ = Circle::new(2).draw(&mut img, 1, 1, Rgba::green());
    let _ = Square::new(1).draw(&mut img, 2, 2, Rgba::green());
    let _ = Line::new(2).draw(&mut img, (1, 1), (3, 2), Rgba::green());
    assert_eq!(img.shape(), (6, 4));
    assert_eq!(img.as_bytes().len(), 96);
}

/// The row of a line at column `i`: the slope times `i` plus the intercept,
/// as a fraction, rounded with halves going up.
fn exact_row(from: (usize, usize), to: (usize, usize), i: usize) -> usize {
    let (fx, fy, tx, ty, i) = (from.0 as i64, from.1 as i64, to.0 as i64, to.1 as i64, i as i64);
    let run = tx - fx;
    let n = ty * run + (ty - fy) * (i - tx);
    ((2 * n + run) / (2 * run)) as usize
}

#[test]
fn lines_follow_the_slope_between_all_points_of_a_small_image() {
    let size = 12usize;
    for fx in 0..size {
        for tx in (fx + 1)..size {
            for fy in 0..size {
                for ty in 0..size {
                    let mut img = Image::new(size, size);
                    let r = Line::new(2).draw(&mut img, (fx, fy), (tx, ty), Rgba::red());
                    if fx == 0 {
                        assert_eq!(r, Err(ImageError::OutOfBounds));
                        assert!(inked(&img).is_empty());
                        continue;
                    }
                    assert_eq!(r, Ok(()));
                    let mut want = Vec::new();
                    for i in fx..tx {
                        let row = exact_row((fx, fy), (tx, ty), i);
                        want.push((row, i - 1));
                        want.push((row, i));
                    }
                    want.sort();
                    want.dedup();
                    assert_eq!(inked(&img), want);
                }
            }
        }
    }
}

#[test]
fn line_takes_an_exact_half_up() {
    // slope five sixths: at column 4 the line stands at row 2.5 exactly
    let mut img = Image::new(8, 8);
    assert_eq!(Line::new(2).draw(&mut img, (1, 0), (7, 5), Rgba::red()), Ok(()));
    assert_eq!(img.at(3, 3).unwrap().as_array(), INK);
    assert_eq!(img.at(3, 4).unwrap().as_array(), INK);
    assert_eq!(img.at(2, 4).unwrap().as_array(), [0, 0, 0, 0]);
    assert_eq!(
        inked(&img),
        vec![(0, 0), (0, 1), (1, 1), (1, 2), (2, 2), (2, 3), (3, 3), (3, 4), (3, 5), (4, 5), (4, 6)]
    );
}

#[test]
fn circles_agree_with_the_distance_rule_at_every_center() {
    let (w, h) = (7usize, 7usize);
    for r in 1..5usize {
        for x in 0..w {
            for y in 0..h {
                let mut img = Image::new(w, h);
                assert_eq!(Circle::new(r).draw(&mut img, x, y, Rgba::red()), Ok(()));
                let lx = x.saturating_sub(r);
                let ly = y.saturating_sub(r);
                let hx = (x + r).min(w - 1);
                let hy = (y + r).min(h - 1);
                let (mx, my) = ((lx + hx) / 2, (ly + hy) / 2);
                let mut want = Vec::new();
                for row in ly..=hy {
                    for col in lx..=hx {
                        let dx = col.abs_diff(mx);
                        let dy = row.abs_diff(my);
                        if dx * dx + dy * dy <= r * r {
                            want.push((row, col));
                        }
                    }
                }
                assert_eq!(inked(&img), want);
            }
        }
    }
}

#[test]
fn squares_are_cut_to_the_image_at_every_center() {
    let (w, h) = (6usize, 6usize);
    for r in 1..4usize {
        for x in 0..w {
            for y in 0..h {
                let mut img = Image::new(w, h);
                assert_eq!(Square::new(r).draw(&mut img, x, y, Rgba::red()), Ok(()));
                let mut want = Vec::new();
                for row in x.saturating_sub(r)..=(x + r).min(w - 1) {
                    for col in y.saturating_sub(r)..=(y + r).min(h - 1) {
                        want.push((row, col));
                    }
                }
                assert_eq!(inked(&img), want);
            }
        }
    }
}
