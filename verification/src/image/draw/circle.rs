//! Filled circles.

use vstd::prelude::*;
use crate::error::ImageError;
use crate::image::draw::{clamp_high, clamp_low, high, low, Draw};
use crate::image::scan::Scan;
use crate::image::view::ImageView;
use crate::image::Image;
use crate::rgba::{Channels, Rgba};

verus! {

/// Whether the point that lies `dx` and `dy` away from a center is within
/// `radius` of it.
pub open spec fn within(dx: int, dy: int, radius: int) -> bool {
    dx * dx + dy * dy <= radius * radius
}

/// A point within a radius lies within it along each axis.
pub proof fn lemma_within_reach(dx: int, dy: int, radius: int)
    requires
        0 <= radius,
        within(dx, dy, radius),
    ensures
        -radius <= dx <= radius,
        -radius <= dy <= radius,
{
    assert(-radius <= dx <= radius && -radius <= dy <= radius) by (nonlinear_arith)
        requires
            0 <= radius,
            dx * dx + dy * dy <= radius * radius,
    ;
}

/// The distance between two coordinates.
fn distance(a: usize, b: usize) -> (d: usize)
    ensures
        d == if a > b { a - b } else { b - a },
        d * d == (a - b) * (a - b),
{
    assert((b - a) * (b - a) == (a - b) * (a - b)) by (nonlinear_arith);
    if a > b {
        a - b
    } else {
        b - a
    }
}

fn is_within(dx: usize, dy: usize, radius: usize) -> (b: bool)
    ensures
        b == within(dx as int, dy as int, radius as int),
{
    if dx > radius || dy > radius {
        assert(dx > radius ==> dx * dx > radius * radius) by (nonlinear_arith);
        assert(dy > radius ==> dy * dy > radius * radius) by (nonlinear_arith);
        assert(dx * dx >= 0 && dy * dy >= 0) by (nonlinear_arith);
        return false;
    }
    let ghost limit: int = 0x1_0000_0000_0000_0000;
    assert(dx * dx <= radius * radius && dy * dy <= radius * radius && radius * radius < limit * limit
        && 0 <= dx * dx && 0 <= dy * dy) by (nonlinear_arith)
        requires
            0 <= dx <= radius,
            0 <= dy <= radius,
            radius < limit,
    ;
    let xx: u128 = (dx as u128) * (dx as u128);
    let yy: u128 = (dy as u128) * (dy as u128);
    let rr: u128 = (radius as u128) * (radius as u128);
    yy <= rr - xx
}

/// A filled circle, placed by its center.
pub struct Circle {
    radius: usize,
}

impl Circle {
    /// The radius.
    pub closed spec fn radius(&self) -> nat {
        self.radius as nat
    }

    pub fn new(radius: usize) -> (s: Self)
        ensures
            s.radius() == radius,
    {
        Self { radius }
    }

    /// The positions, as row and column, that lie within `radius` of the
    /// point in column `x` and row `y`.
    pub open spec fn disc(x: int, y: int, radius: int) -> Set<(int, int)> {
        Set::new(|p: (int, int)| within(p.1 - x, p.0 - y, radius))
    }

    /// A circle that lies off every edge of the image, and within its height
    /// along the width and within its width along the height, is drawn whole:
    /// exactly the positions within the radius of the center are painted.
    pub proof fn lemma_whole_circle(
        &self,
        before: ImageView,
        x: usize,
        y: usize,
        c: Channels,
        after: ImageView,
        r: Result<(), ImageError>,
    )
        requires
            before.wf(),
            self.radius() > 0,
            self.radius() <= x,
            x + self.radius() < before.width,
            self.radius() <= y,
            y + self.radius() < before.height,
            x + self.radius() < before.height,
            y + self.radius() < before.width,
            self.scan(before.width, before.height, x, y).draws(before, c, after, r),
        ensures
            r is Ok,
            after == before.paint(Self::disc(x as int, y as int, self.radius() as int), c),
            forall|row: int, col: int|
                before.in_bounds(row, col) && col < before.width ==> #[trigger] after.pixel(row, col) == (if within(
                    col - x,
                    row - y,
                    self.radius() as int,
                ) {
                    c
                } else {
                    before.pixel(row, col)
                }),
    {
        let scan = self.scan(before.width, before.height, x, y);
        let radius = self.radius() as int;
        let disc = Self::disc(x as int, y as int, radius);
        assert forall|i: int, j: int| #[trigger] scan.fits(before, i, j) by {
            if scan.writes(i, j) {
                assert(j * before.width + i < before.width * before.height) by (nonlinear_arith)
                    requires
                        0 <= j < before.height,
                        0 <= i < before.width,
                ;
            }
        }
        scan.lemma_fits_then_ok(before, c, after, r);
        assert forall|p: (int, int)| disc.contains(p) implies scan.painted().contains(p) by {
            lemma_within_reach(p.1 - x, p.0 - y, radius);
            assert(scan.hits(p.1, p.0, p));
        }
        assert(scan.painted() =~= disc);
        assert forall|row: int, col: int| before.in_bounds(row, col) && col < before.width implies #[trigger] after.pixel(
            row,
            col,
        ) == (if within(col - x, row - y, radius) {
            c
        } else {
            before.pixel(row, col)
        }) by {
            before.lemma_paint_then_pixel(disc, c, row, col);
        }
    }
}

impl Draw for Circle {
    type Endpoint = usize;

    /// A circle without radius has no extent.
    open spec fn degenerate(&self, x: usize, y: usize) -> bool {
        self.radius() == 0
    }

    /// The scan walks the box of the points within the radius of the center
    /// (`x`, `y`) in both directions, cut to the image: `i` along the width,
    /// `j` along the height. It writes where the step lies within the radius
    /// of the middle of that box, and it writes at row `j`, column `i`.
    open spec fn scan(&self, width: nat, height: nat, x: usize, y: usize) -> Scan {
        let r = self.radius() as int;
        let lx = low(x as int, r);
        let hx = high(x as int, r, width as int);
        let ly = low(y as int, r);
        let hy = high(y as int, r, height as int);
        let mx = (lx + hx) / 2;
        let my = (ly + hy) / 2;
        Scan {
            covers: |i: int, j: int| lx <= i <= hx && ly <= j <= hy && within(i - mx, j - my, r),
            target: |i: int, j: int| (j, i),
        }
    }

    fn draw(&self, img: &mut Image, x: usize, y: usize, color: Rgba) -> (r: Result<(), ImageError>) {
        let ghost before = img@;
        let ghost c = color@;
        let (w, h) = img.shape();
        let ghost scan = self.scan(w as nat, h as nat, x, y);
        proof {
            img.lemma_view_wf();
        }
        if self.radius == 0 {
            return Err(ImageError::DegenerateGeometry);
        }
        if w == 0 || h == 0 {
            proof {
                scan.lemma_begin(before, c, 0, 0);
                scan.lemma_done(before, c, before, 0, 0);
            }
            return Ok(());
        }
        let lx = clamp_low(x, self.radius);
        let hx = clamp_high(x, self.radius, w);
        let ly = clamp_low(y, self.radius);
        let hy = clamp_high(y, self.radius, h);
        proof {
            scan.lemma_begin(before, c, lx as int, ly as int);
        }
        if lx > hx || ly > hy {
            proof {
                scan.lemma_done(before, c, before, lx as int, ly as int);
            }
            return Ok(());
        }
        let mx = lx + (hx - lx) / 2;
        let my = ly + (hy - ly) / 2;
        let mut i = lx;
        while i <= hx
            invariant
                before == old(img)@,
                before.wf(),
                scan == self.scan(before.width, before.height, x, y),
                w == before.width && h == before.height && w > 0 && h > 0,
                lx == low(x as int, self.radius() as int),
                hx == high(x as int, self.radius() as int, w as int),
                ly == low(y as int, self.radius() as int),
                hy == high(y as int, self.radius() as int, h as int),
                mx == (lx + hx) / 2,
                my == (ly + hy) / 2,
                lx <= i <= hx + 1,
                ly <= hy,
                c == color@,
                !self.degenerate(x, y),
                scan.reached(before, c, img@, i as int, ly as int),
            decreases hx + 1 - i,
        {
            let mut j = ly;
            while j <= hy
                invariant
                    before == old(img)@,
                    before.wf(),
                    scan == self.scan(before.width, before.height, x, y),
                    w == before.width && h == before.height && w > 0 && h > 0,
                    lx == low(x as int, self.radius() as int),
                    hx == high(x as int, self.radius() as int, w as int),
                    ly == low(y as int, self.radius() as int),
                    hy == high(y as int, self.radius() as int, h as int),
                    mx == (lx + hx) / 2,
                    my == (ly + hy) / 2,
                    lx <= i <= hx,
                    ly <= j <= hy + 1,
                    c == color@,
                    !self.degenerate(x, y),
                    scan.reached(before, c, img@, i as int, j as int),
                decreases hy + 1 - j,
            {
                let ghost now = img@;
                if is_within(distance(i, mx), distance(j, my), self.radius) {
                    match img.set(j, i, color) {
                        Ok(_) => {},
                        Err(e) => {
                            proof {
                                scan.lemma_stop(before, c, now, i as int, j as int);
                            }
                            return Err(e);
                        },
                    }
                }
                proof {
                    scan.lemma_advance(before, c, now, img@, i as int, j as int);
                }
                j += 1;
            }
            proof {
                scan.lemma_skip(before, c, img@, i as int, j as int, i + 1, ly as int);
            }
            i += 1;
        }
        proof {
            scan.lemma_done(before, c, img@, i as int, ly as int);
        }
        Ok(())
    }
}

} // verus!
