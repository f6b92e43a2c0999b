//! Filled squares.

use vstd::prelude::*;
use crate::error::ImageError;
use crate::image::draw::{clamp_high, clamp_low, high, low, Draw};
use crate::image::scan::Scan;
use crate::image::view::ImageView;
use crate::image::Image;
use crate::rgba::{Channels, Rgba};

verus! {

/// A filled square, placed by its center; `length` pixels lie between the
/// center and each side.
pub struct Square {
    length: usize,
}

impl Square {
    /// The distance from the center to each side.
    pub closed spec fn length(&self) -> nat {
        self.length as nat
    }

    pub fn new(length: usize) -> (s: Self)
        ensures
            s.length() == length,
    {
        Self { length }
    }

    /// The positions, as row and column, that lie within `reach` of row `x`
    /// and of column `y`.
    pub open spec fn block(x: int, y: int, reach: int) -> Set<(int, int)> {
        Set::new(|p: (int, int)| x - reach <= p.0 <= x + reach && y - reach <= p.1 <= y + reach)
    }

    /// A square that lies off every edge of the image, and whose last pixel
    /// the image holds, is drawn whole: exactly the positions of the block
    /// around the center are painted. Where the block also lies within the
    /// width of a row, each pixel within that width holds the new color if it
    /// lies in the block, and its old color if not.
    pub proof fn lemma_whole_square(
        &self,
        before: ImageView,
        x: usize,
        y: usize,
        c: Channels,
        after: ImageView,
        r: Result<(), ImageError>,
    )
        requires
            before.wf(),
            self.length() > 0,
            self.length() <= x,
            x + self.length() < before.width,
            self.length() <= y,
            y + self.length() < before.height,
            before.offset(x + self.length(), y + self.length()) < before.width * before.height,
            self.scan(before.width, before.height, x, y).draws(before, c, after, r),
        ensures
            r is Ok,
            after == before.paint(Self::block(x as int, y as int, self.length() as int), c),
            y + self.length() < before.width ==> forall|row: int, col: int|
                before.in_bounds(row, col) && col < before.width ==> #[trigger] after.pixel(row, col) == (if Self::block(
                    x as int,
                    y as int,
                    self.length() as int,
                ).contains((row, col)) {
                    c
                } else {
                    before.pixel(row, col)
                }),
    {
        let scan = self.scan(before.width, before.height, x, y);
        let reach = self.length() as int;
        let block = Self::block(x as int, y as int, reach);
        assert forall|i: int, j: int| #[trigger] scan.fits(before, i, j) by {
            if scan.writes(i, j) {
                assert(i * before.width + j <= (x + reach) * before.width + (y + reach)) by (nonlinear_arith)
                    requires
                        0 <= i <= x + reach,
                        j <= y + reach,
                        0 <= before.width,
                ;
            }
        }
        scan.lemma_fits_then_ok(before, c, after, r);
        assert forall|p: (int, int)| block.contains(p) implies scan.painted().contains(p) by {
            assert(scan.hits(p.0, p.1, p));
        }
        assert(scan.painted() =~= block);
        if y + reach < before.width {
            assert forall|row: int, col: int| before.in_bounds(row, col) && col < before.width implies #[trigger] after.pixel(
                row,
                col,
            ) == (if block.contains((row, col)) {
                c
            } else {
                before.pixel(row, col)
            }) by {
                before.lemma_paint_then_pixel(block, c, row, col);
            }
        }
    }
}

impl Draw for Square {
    type Endpoint = usize;

    /// A square without length has no extent.
    open spec fn degenerate(&self, x: usize, y: usize) -> bool {
        self.length() == 0
    }

    /// The scan walks the box of the points within the length of the center
    /// (`x`, `y`) in both directions, cut to the image: `i` along the width,
    /// `j` along the height. Every step writes, at row `i`, column `j`.
    open spec fn scan(&self, width: nat, height: nat, x: usize, y: usize) -> Scan {
        let r = self.length() as int;
        let lx = low(x as int, r);
        let hx = high(x as int, r, width as int);
        let ly = low(y as int, r);
        let hy = high(y as int, r, height as int);
        Scan { covers: |i: int, j: int| lx <= i <= hx && ly <= j <= hy, target: |i: int, j: int| (i, j) }
    }

    fn draw(&self, img: &mut Image, x: usize, y: usize, color: Rgba) -> (r: Result<(), ImageError>) {
        let ghost before = img@;
        let ghost c = color@;
        let (w, h) = img.shape();
        let ghost scan = self.scan(w as nat, h as nat, x, y);
        proof {
            img.lemma_view_wf();
        }
        if self.length == 0 {
            return Err(ImageError::DegenerateGeometry);
        }
        if w == 0 || h == 0 {
            proof {
                scan.lemma_begin(before, c, 0, 0);
                scan.lemma_done(before, c, before, 0, 0);
            }
            return Ok(());
        }
        let lx = clamp_low(x, self.length);
        let hx = clamp_high(x, self.length, w);
        let ly = clamp_low(y, self.length);
        let hy = clamp_high(y, self.length, h);
        proof {
            scan.lemma_begin(before, c, lx as int, ly as int);
        }
        if lx > hx || ly > hy {
            proof {
                scan.lemma_done(before, c, before, lx as int, ly as int);
            }
            return Ok(());
        }
        let mut i = lx;
        while i <= hx
            invariant
                before == old(img)@,
                before.wf(),
                scan == self.scan(before.width, before.height, x, y),
                w == before.width && h == before.height && w > 0 && h > 0,
                lx == low(x as int, self.length() as int),
                hx == high(x as int, self.length() as int, w as int),
                ly == low(y as int, self.length() as int),
                hy == high(y as int, self.length() as int, h as int),
                lx <= i <= hx + 1,
                ly <= hy,
                c == color@,
                !self.degenerate(x, y),
                scan.reached(before, c, img@, i as int, ly as int),
            decreases hx + 1 - i,
        {
            let mut j = ly;
            while j <= hy
                invariant
                    before == old(img)@,
                    before.wf(),
                    scan == self.scan(before.width, before.height, x, y),
                    w == before.width && h == before.height && w > 0 && h > 0,
                    lx == low(x as int, self.length() as int),
                    hx == high(x as int, self.length() as int, w as int),
                    ly == low(y as int, self.length() as int),
                    hy == high(y as int, self.length() as int, h as int),
                    lx <= i <= hx,
                    ly <= j <= hy + 1,
                    c == color@,
                    !self.degenerate(x, y),
                    scan.reached(before, c, img@, i as int, j as int),
                decreases hy + 1 - j,
            {
                let ghost now = img@;
                match img.set(i, j, color) {
                    Ok(_) => {},
                    Err(e) => {
                        proof {
                            scan.lemma_stop(before, c, now, i as int, j as int);
                        }
                        return Err(e);
                    },
                }
                proof {
                    scan.lemma_advance(before, c, now, img@, i as int, j as int);
                }
                j += 1;
            }
            proof {
                scan.lemma_skip(before, c, img@, i as int, j as int, i + 1, ly as int);
            }
            i += 1;
        }
        proof {
            scan.lemma_done(before, c, img@, i as int, ly as int);
        }
        Ok(())
    }
}

} // verus!
