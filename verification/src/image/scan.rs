//! Scans: how a shape is drawn, pixel after pixel.
//!
//! A scan walks through steps (`i`, `j`), `i` outermost, both ascending. Some
//! of the steps write a pixel. A write outside the image ends the scan there;
//! what was written before stays.

use vstd::prelude::*;
use crate::error::ImageError;
use crate::image::view::ImageView;
use crate::rgba::Channels;

verus! {

/// Whether a scan reaches step (`i`, `j`) before step (`fi`, `fj`).
pub open spec fn earlier(i: int, j: int, fi: int, fj: int) -> bool {
    i < fi || (i == fi && j < fj)
}

/// The scan that draws a shape: which steps write, and where.
pub struct Scan {
    /// Whether step (`i`, `j`) writes a pixel.
    pub covers: spec_fn(int, int) -> bool,
    /// The position, as row and column, that step (`i`, `j`) writes.
    pub target: spec_fn(int, int) -> (int, int),
}

impl Scan {
    /// Whether step (`i`, `j`) writes a pixel.
    pub open spec fn writes(self, i: int, j: int) -> bool {
        (self.covers)(i, j)
    }

    /// Whether step (`i`, `j`) writes at position `p`.
    pub open spec fn hits(self, i: int, j: int, p: (int, int)) -> bool {
        self.writes(i, j) && (self.target)(i, j) == p
    }

    /// The positions that the whole scan writes.
    pub open spec fn painted(self) -> Set<(int, int)> {
        Set::new(|p: (int, int)| exists|i: int, j: int| #[trigger] self.hits(i, j, p))
    }

    /// The positions that the steps before (`fi`, `fj`) write.
    pub open spec fn painted_before(self, fi: int, fj: int) -> Set<(int, int)> {
        Set::new(|p: (int, int)| exists|i: int, j: int| #[trigger] self.hits(i, j, p) && earlier(i, j, fi, fj))
    }

    /// Whether step (`i`, `j`) writes nothing, or writes inside `img`.
    pub open spec fn fits(self, img: ImageView, i: int, j: int) -> bool {
        self.writes(i, j) ==> img.in_bounds((self.target)(i, j).0, (self.target)(i, j).1)
    }

    /// Whether (`fi`, `fj`) is the first step that writes outside `img`.
    pub open spec fn stops_at(self, img: ImageView, fi: int, fj: int) -> bool {
        &&& !self.fits(img, fi, fj)
        &&& forall|i: int, j: int| earlier(i, j, fi, fj) ==> #[trigger] self.fits(img, i, j)
    }

    /// What the scan makes of an image: `before` becomes `after`, and `r`
    /// comes back.
    ///
    /// Where every step fits, all positions of the scan are painted. Where one
    /// does not, the positions of the steps before the first such step are
    /// painted, and the scan ends there with `OutOfBounds`.
    pub open spec fn draws(self, before: ImageView, c: Channels, after: ImageView, r: Result<(), ImageError>) -> bool {
        match r {
            Ok(_) => {
                &&& forall|i: int, j: int| #[trigger] self.fits(before, i, j)
                &&& after == before.paint(self.painted(), c)
            },
            Err(e) => {
                &&& e == ImageError::OutOfBounds
                &&& exists|fi: int, fj: int|
                    {
                        &&& #[trigger] self.stops_at(before, fi, fj)
                        &&& after == before.paint(self.painted_before(fi, fj), c)
                    }
            },
        }
    }

    /// Whether a scan of `before` that stands before step (`i`, `j`), with
    /// every step so far inside the image, has made `now` of it.
    pub open spec fn reached(self, before: ImageView, c: Channels, now: ImageView, i: int, j: int) -> bool {
        &&& now == before.paint(self.painted_before(i, j), c)
        &&& forall|a: int, b: int| earlier(a, b, i, j) ==> #[trigger] self.fits(before, a, b)
    }

    /// One more step adds at most its own position to what was painted.
    pub proof fn lemma_next_step(self, i: int, j: int)
        ensures
            self.painted_before(i, j + 1) == if self.writes(i, j) {
                self.painted_before(i, j).insert((self.target)(i, j))
            } else {
                self.painted_before(i, j)
            },
    {
        if self.writes(i, j) {
            assert(self.hits(i, j, (self.target)(i, j)) && earlier(i, j, i, j + 1));
        }
    }

    /// Two steps with the same writing steps before them have the same
    /// positions painted before them.
    pub proof fn lemma_same_steps(self, i1: int, j1: int, i2: int, j2: int)
        requires
            forall|a: int, b: int| #[trigger] self.writes(a, b) ==> (earlier(a, b, i1, j1) <==> earlier(a, b, i2, j2)),
        ensures
            self.painted_before(i1, j1) == self.painted_before(i2, j2),
    {
    }

    /// Before a step that every writing step precedes, all is painted.
    pub proof fn lemma_all_steps(self, i: int, j: int)
        requires
            forall|a: int, b: int| #[trigger] self.writes(a, b) ==> earlier(a, b, i, j),
        ensures
            self.painted_before(i, j) == self.painted(),
    {
    }

    /// A scan that stands before a step that no writing step precedes has
    /// changed nothing yet.
    pub proof fn lemma_begin(self, before: ImageView, c: Channels, i: int, j: int)
        requires
            forall|a: int, b: int| #[trigger] self.writes(a, b) ==> !earlier(a, b, i, j),
        ensures
            self.reached(before, c, before, i, j),
    {
        assert(self.painted_before(i, j) =~= Set::<(int, int)>::empty());
        before.lemma_paint_nothing(c);
    }

    /// A step that fits takes the scan on by one: the pixel it writes is set,
    /// or nothing changes where it writes none.
    pub proof fn lemma_advance(self, before: ImageView, c: Channels, now: ImageView, next: ImageView, i: int, j: int)
        requires
            before.wf(),
            self.reached(before, c, now, i, j),
            self.fits(before, i, j),
            next == if self.writes(i, j) {
                now.set((self.target)(i, j).0, (self.target)(i, j).1, c)
            } else {
                now
            },
        ensures
            self.reached(before, c, next, i, j + 1),
    {
        self.lemma_next_step(i, j);
        if self.writes(i, j) {
            before.lemma_paint_one_more(self.painted_before(i, j), (self.target)(i, j).0, (self.target)(i, j).1, c);
        }
    }

    /// A scan stands before each of two steps that have the same writing
    /// steps before them.
    pub proof fn lemma_skip(self, before: ImageView, c: Channels, now: ImageView, i1: int, j1: int, i2: int, j2: int)
        requires
            self.reached(before, c, now, i1, j1),
            forall|a: int, b: int| #[trigger] self.writes(a, b) ==> (earlier(a, b, i1, j1) <==> earlier(a, b, i2, j2)),
        ensures
            self.reached(before, c, now, i2, j2),
    {
        self.lemma_same_steps(i1, j1, i2, j2);
    }

    /// A scan that stands before a step that does not fit ends there.
    pub proof fn lemma_stop(self, before: ImageView, c: Channels, now: ImageView, i: int, j: int)
        requires
            self.reached(before, c, now, i, j),
            !self.fits(before, i, j),
        ensures
            self.draws(before, c, now, Err(ImageError::OutOfBounds)),
    {
        assert(self.stops_at(before, i, j));
    }

    /// A scan that stands behind all its writing steps is done.
    pub proof fn lemma_done(self, before: ImageView, c: Channels, now: ImageView, i: int, j: int)
        requires
            self.reached(before, c, now, i, j),
            forall|a: int, b: int| #[trigger] self.writes(a, b) ==> earlier(a, b, i, j),
        ensures
            self.draws(before, c, now, Ok(())),
    {
        self.lemma_all_steps(i, j);
    }

    /// A scan has one outcome: what it makes of an image, and what comes
    /// back, is the same however it is run.
    pub proof fn lemma_one_outcome(
        self,
        before: ImageView,
        c: Channels,
        after1: ImageView,
        r1: Result<(), ImageError>,
        after2: ImageView,
        r2: Result<(), ImageError>,
    )
        requires
            self.draws(before, c, after1, r1),
            self.draws(before, c, after2, r2),
        ensures
            after1 == after2,
            r1 == r2,
    {
        if r1 is Err {
            let (i1, j1) = choose|fi: int, fj: int|
                {
                    &&& #[trigger] self.stops_at(before, fi, fj)
                    &&& after1 == before.paint(self.painted_before(fi, fj), c)
                };
            assert(!self.fits(before, i1, j1));
            if r2 is Err {
                let (i2, j2) = choose|fi: int, fj: int|
                    {
                        &&& #[trigger] self.stops_at(before, fi, fj)
                        &&& after2 == before.paint(self.painted_before(fi, fj), c)
                    };
                assert(!self.fits(before, i2, j2));
                assert(!earlier(i1, j1, i2, j2) && !earlier(i2, j2, i1, j1));
            }
        } else if r2 is Err {
            let (i2, j2) = choose|fi: int, fj: int| #[trigger] self.stops_at(before, fi, fj);
            assert(!self.fits(before, i2, j2));
        } else {
            assert(r1->Ok_0 == r2->Ok_0);
        }
    }

    /// A scan of which every step fits does not fail.
    pub proof fn lemma_fits_then_ok(self, before: ImageView, c: Channels, after: ImageView, r: Result<(), ImageError>)
        requires
            self.draws(before, c, after, r),
            forall|i: int, j: int| #[trigger] self.fits(before, i, j),
        ensures
            r is Ok,
            after == before.paint(self.painted(), c),
    {
    }
}

} // verus!
