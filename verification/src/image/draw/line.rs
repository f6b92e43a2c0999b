//! Straight lines.

use vstd::prelude::*;
use crate::error::ImageError;
use crate::image::draw::Draw;
use crate::image::scan::Scan;
use crate::image::view::ImageView;
use crate::image::Image;
use crate::rgba::{Channels, Rgba};

verus! {

/// The integer nearest to `n / d`, a half taken away from zero.
pub open spec fn rounded(n: int, d: int) -> int
    recommends
        d > 0,
{
    if n >= 0 {
        (2 * n + d) / (2 * d)
    } else {
        -((d - 2 * n) / (2 * d))
    }
}

/// The row in which the line from `from` to `to` crosses column `i`: with
/// the slope `m = (to.1 - from.1) / (to.0 - from.0)` and the intercept
/// `b = to.1 - m * to.0`, the value `m * i + b`, rounded.
pub open spec fn line_row(from: (int, int), to: (int, int), i: int) -> int
    recommends
        from.0 < to.0,
{
    let run = to.0 - from.0;
    let rise = to.1 - from.1;
    rounded(to.1 * run + rise * (i - to.0), run)
}

fn row_at(fx: usize, fy: usize, tx: usize, ty: usize, i: usize) -> (row: u128)
    requires
        fx <= i < tx,
    ensures
        row == line_row((fx as int, fy as int), (tx as int, ty as int), i as int),
{
    let run: u128 = (tx - fx) as u128;
    let up: u128 = (i - fx) as u128;
    let down: u128 = (tx - i) as u128;
    let ghost most: int = 0xffff_ffff_ffff_ffff;
    assert(0 <= ty * up + fy * down <= most * most) by (nonlinear_arith)
        requires
            0 <= ty <= most,
            0 <= fy <= most,
            0 <= up,
            0 <= down,
            up + down <= most,
    ;
    assert(0 <= ty * up <= ty * up + fy * down) by (nonlinear_arith)
        requires
            0 <= ty,
            0 <= fy,
            0 <= up,
            0 <= down,
    ;
    let n: u128 = (ty as u128) * up + (fy as u128) * down;
    let q: u128 = n / run;
    let rem: u128 = n % run;
    let row: u128 = if 2 * rem >= run {
        q + 1
    } else {
        q
    };
    proof {
        let d = run as int;
        assert(ty * d + (ty - fy) * (i - tx) == n) by (nonlinear_arith)
            requires
                d == tx - fx,
                n == ty * (i - fx) + fy * (tx - i),
        ;
        vstd::arithmetic::div_mod::lemma_fundamental_div_mod(n as int, d);
        assert(0 <= 2 * n + d - row * (2 * d) < 2 * d) by (nonlinear_arith)
            requires
                n == d * q + rem,
                0 <= rem < d,
                row == if 2 * rem >= d { q + 1 } else { q as int },
        ;
        vstd::arithmetic::div_mod::lemma_fundamental_div_mod_converse(
            2 * n + d,
            2 * d,
            row as int,
            2 * n + d - row * (2 * d),
        );
    }
    row
}

/// Along a diagonal that rises by one row for each column, the line crosses
/// each column in the row that lies as far from the first row as the column
/// lies from the first column.
pub proof fn lemma_diagonal_row(from: (int, int), n: int, i: int)
    requires
        0 < n,
        0 <= from.1,
        from.0 <= i,
    ensures
        line_row(from, (from.0 + n, from.1 + n), i) == from.1 + (i - from.0),
{
    let row = from.1 + (i - from.0);
    assert((from.1 + n) * n + n * (i - (from.0 + n)) == n * row) by (nonlinear_arith)
        requires
            row == from.1 + (i - from.0),
    ;
    assert(0 <= n * row && 2 * (n * row) + n == row * (2 * n) + n) by (nonlinear_arith)
        requires
            0 < n,
            0 <= row,
    ;
    vstd::arithmetic::div_mod::lemma_fundamental_div_mod_converse(2 * (n * row) + n, 2 * n, row, n);
}

/// A straight line between two points, `width` pixels wide.
pub struct Line {
    width: usize,
}

impl Line {
    /// The width.
    pub closed spec fn width(&self) -> nat {
        self.width as nat
    }

    /// How far the line reaches to each side of its middle: half the width,
    /// rounded down.
    pub open spec fn reach(&self) -> nat {
        self.width() / 2
    }

    pub fn new(width: usize) -> (s: Self)
        ensures
            s.width() == width,
    {
        Self { width }
    }

    /// A line of a width below two reaches nowhere: it is drawn without a
    /// failure and without a pixel.
    pub proof fn lemma_thin_line(
        &self,
        before: ImageView,
        x: (usize, usize),
        y: (usize, usize),
        c: Channels,
        after: ImageView,
        r: Result<(), ImageError>,
    )
        requires
            self.width() < 2,
            self.scan(before.width, before.height, x, y).draws(before, c, after, r),
        ensures
            r is Ok,
            after == before,
    {
        let scan = self.scan(before.width, before.height, x, y);
        scan.lemma_fits_then_ok(before, c, after, r);
        scan.lemma_begin(before, c, 0, 0);
        scan.lemma_all_steps(0, 0);
    }
}

impl Draw for Line {
    type Endpoint = (usize, usize);

    /// A line between two points of one column has no slope.
    open spec fn degenerate(&self, x: (usize, usize), y: (usize, usize)) -> bool {
        x.0 == y.0
    }

    /// The scan walks the columns `i` from that of `x` up to, not including,
    /// that of `y`, and for each the offsets `j` around `i` as far as the
    /// line reaches. Step (`i`, `j`) writes at the row in which the line
    /// crosses `i`, and at column `j`.
    open spec fn scan(&self, width: nat, height: nat, x: (usize, usize), y: (usize, usize)) -> Scan {
        let from = (x.0 as int, x.1 as int);
        let to = (y.0 as int, y.1 as int);
        let reach = self.reach() as int;
        Scan {
            covers: |i: int, j: int| from.0 <= i < to.0 && i - reach <= j < i + reach,
            target: |i: int, j: int| (line_row(from, to, i), j),
        }
    }

    fn draw(&self, img: &mut Image, x: (usize, usize), y: (usize, usize), color: Rgba) -> (r: Result<
        (),
        ImageError,
    >) {
        let ghost before = img@;
        let ghost c = color@;
        let ghost scan = self.scan(before.width, before.height, x, y);
        let (fx, fy) = x;
        let (tx, ty) = y;
        let hw = self.width / 2;
        proof {
            img.lemma_view_wf();
        }
        if fx == tx {
            return Err(ImageError::DegenerateGeometry);
        }
        proof {
            scan.lemma_begin(before, c, fx as int, fx - hw);
        }
        if hw == 0 {
            proof {
                scan.lemma_done(before, c, before, fx as int, fx - hw);
            }
            return Ok(());
        }
        let mut i = fx;
        while i < tx
            invariant
                before == old(img)@,
                before.wf(),
                scan == self.scan(before.width, before.height, x, y),
                x == (fx, fy),
                y == (tx, ty),
                hw == self.reach(),
                hw > 0,
                fx <= i,
                i <= tx || fx > tx,
                c == color@,
                !self.degenerate(x, y),
                scan.reached(before, c, img@, i as int, i - hw),
            decreases tx - i,
        {
            if i < hw {
                proof {
                    scan.lemma_stop(before, c, img@, i as int, i - hw);
                }
                return Err(ImageError::OutOfBounds);
            }
            let row = row_at(fx, fy, tx, ty, i);
            let first = i - hw;
            let mut k: usize = 0;
            while k < 2 * hw
                invariant
                    before == old(img)@,
                    before.wf(),
                    scan == self.scan(before.width, before.height, x, y),
                    x == (fx, fy),
                    y == (tx, ty),
                    hw == self.reach(),
                    2 * hw <= usize::MAX,
                    fx <= i < tx,
                    first == i - hw,
                    k <= 2 * hw,
                    row == line_row((fx as int, fy as int), (tx as int, ty as int), i as int),
                    c == color@,
                    !self.degenerate(x, y),
                    scan.reached(before, c, img@, i as int, first + k),
                decreases 2 * hw - k,
            {
                let ghost now = img@;
                if row > usize::MAX as u128 || k > usize::MAX - first {
                    proof {
                        scan.lemma_stop(before, c, now, i as int, first + k);
                    }
                    return Err(ImageError::OutOfBounds);
                }
                match img.set(row as usize, first + k, color) {
                    Ok(_) => {},
                    Err(e) => {
                        proof {
                            scan.lemma_stop(before, c, now, i as int, first + k);
                        }
                        return Err(e);
                    },
                }
                proof {
                    scan.lemma_advance(before, c, now, img@, i as int, first + k);
                }
                k += 1;
            }
            proof {
                scan.lemma_skip(before, c, img@, i as int, i + hw, i + 1, i + 1 - hw);
            }
            i += 1;
        }
        proof {
            scan.lemma_done(before, c, img@, i as int, i - hw);
        }
        Ok(())
    }
}

} // verus!
