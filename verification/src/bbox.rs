use vstd::prelude::*;
use crate::pixel::{Pixel, PixelBuffer, grid_height, grid_width};

verus! {

/// Four inclusive coordinates, in source-pixel space, enclosing every
/// pixel whose alpha channel is not zero.
#[derive(Clone, Copy, PartialEq, Eq, Structural, Debug)]
pub struct BoundingBox {
    pub min_x: usize,
    pub max_x: usize,
    pub min_y: usize,
    pub max_y: usize,
}

/// A pixel qualifies when it lies in the grid and is not fully transparent.
pub open spec fn qualifies(g: Seq<Seq<Pixel>>, x: int, y: int) -> bool {
    &&& 0 <= y < grid_height(g)
    &&& 0 <= x < grid_width(g)
    &&& g[y][x].a != 0
}

/// The grid holds at least one qualifying pixel.
pub open spec fn has_content(g: Seq<Seq<Pixel>>) -> bool {
    exists|x: int, y: int| qualifies(g, x, y)
}

pub open spec fn bb_contains(bb: BoundingBox, x: int, y: int) -> bool {
    &&& bb.min_x <= x <= bb.max_x
    &&& bb.min_y <= y <= bb.max_y
}

/// `bb` is the bounding box of the qualifying pixels of `g`: it lies in the
/// grid, contains every qualifying pixel, and each of its four edges is
/// attained by a qualifying pixel.
pub open spec fn is_bounding_box(g: Seq<Seq<Pixel>>, bb: BoundingBox) -> bool {
    &&& bb.min_x <= bb.max_x < grid_width(g)
    &&& bb.min_y <= bb.max_y < grid_height(g)
    &&& forall|x: int, y: int| qualifies(g, x, y) ==> bb_contains(bb, x, y)
    &&& exists|y: int| qualifies(g, bb.min_x as int, y)
    &&& exists|y: int| qualifies(g, bb.max_x as int, y)
    &&& exists|x: int| qualifies(g, x, bb.min_y as int)
    &&& exists|x: int| qualifies(g, x, bb.max_y as int)
}

/// A grid has at most one bounding box.
pub proof fn lemma_bounding_box_unique(g: Seq<Seq<Pixel>>, a: BoundingBox, b: BoundingBox)
    requires
        is_bounding_box(g, a),
        is_bounding_box(g, b),
    ensures
        a == b,
{
    let y1 = choose|y: int| qualifies(g, a.min_x as int, y);
    let y2 = choose|y: int| qualifies(g, a.max_x as int, y);
    let x1 = choose|x: int| qualifies(g, x, a.min_y as int);
    let x2 = choose|x: int| qualifies(g, x, a.max_y as int);
    assert(bb_contains(b, a.min_x as int, y1));
    assert(bb_contains(b, a.max_x as int, y2));
    assert(bb_contains(b, x1, a.min_y as int));
    assert(bb_contains(b, x2, a.max_y as int));
    let y3 = choose|y: int| qualifies(g, b.min_x as int, y);
    let y4 = choose|y: int| qualifies(g, b.max_x as int, y);
    let x3 = choose|x: int| qualifies(g, x, b.min_y as int);
    let x4 = choose|x: int| qualifies(g, x, b.max_y as int);
    assert(bb_contains(a, b.min_x as int, y3));
    assert(bb_contains(a, b.max_x as int, y4));
    assert(bb_contains(a, x3, b.min_y as int));
    assert(bb_contains(a, x4, b.max_y as int));
}

/// The bounding box of a grid, where one exists.
pub open spec fn spec_bbox(g: Seq<Seq<Pixel>>) -> BoundingBox {
    choose|bb: BoundingBox| is_bounding_box(g, bb)
}

/// The least column holding a qualifying pixel, walking left from one.
proof fn lemma_min_qual_x(g: Seq<Seq<Pixel>>, x0: int, y0: int) -> (m: int)
    requires
        qualifies(g, x0, y0),
    ensures
        exists|y: int| qualifies(g, m, y),
        forall|x: int, y: int| qualifies(g, x, y) ==> m <= x,
        0 <= m <= x0,
    decreases x0,
{
    if exists|x: int, y: int| qualifies(g, x, y) && x < x0 {
        let (x1, y1) = choose|x: int, y: int| qualifies(g, x, y) && x < x0;
        lemma_min_qual_x(g, x1, y1)
    } else {
        x0
    }
}

/// The greatest column holding a qualifying pixel, walking right from one.
proof fn lemma_max_qual_x(g: Seq<Seq<Pixel>>, x0: int, y0: int) -> (m: int)
    requires
        qualifies(g, x0, y0),
    ensures
        exists|y: int| qualifies(g, m, y),
        forall|x: int, y: int| qualifies(g, x, y) ==> x <= m,
        x0 <= m < grid_width(g),
    decreases grid_width(g) - x0,
{
    if exists|x: int, y: int| qualifies(g, x, y) && x > x0 {
        let (x1, y1) = choose|x: int, y: int| qualifies(g, x, y) && x > x0;
        lemma_max_qual_x(g, x1, y1)
    } else {
        x0
    }
}

/// The least row holding a qualifying pixel, walking up from one.
proof fn lemma_min_qual_y(g: Seq<Seq<Pixel>>, x0: int, y0: int) -> (m: int)
    requires
        qualifies(g, x0, y0),
    ensures
        exists|x: int| qualifies(g, x, m),
        forall|x: int, y: int| qualifies(g, x, y) ==> m <= y,
        0 <= m <= y0,
    decreases y0,
{
    if exists|x: int, y: int| qualifies(g, x, y) && y < y0 {
        let (x1, y1) = choose|x: int, y: int| qualifies(g, x, y) && y < y0;
        lemma_min_qual_y(g, x1, y1)
    } else {
        y0
    }
}

/// The greatest row holding a qualifying pixel, walking down from one.
proof fn lemma_max_qual_y(g: Seq<Seq<Pixel>>, x0: int, y0: int) -> (m: int)
    requires
        qualifies(g, x0, y0),
    ensures
        exists|x: int| qualifies(g, x, m),
        forall|x: int, y: int| qualifies(g, x, y) ==> y <= m,
        y0 <= m < grid_height(g),
    decreases grid_height(g) - y0,
{
    if exists|x: int, y: int| qualifies(g, x, y) && y > y0 {
        let (x1, y1) = choose|x: int, y: int| qualifies(g, x, y) && y > y0;
        lemma_max_qual_y(g, x1, y1)
    } else {
        y0
    }
}

/// A grid with content has a bounding box, so `spec_bbox` denotes one.
pub proof fn lemma_bbox_exists(g: Seq<Seq<Pixel>>)
    requires
        has_content(g),
        grid_width(g) <= usize::MAX,
        grid_height(g) <= usize::MAX,
    ensures
        is_bounding_box(g, spec_bbox(g)),
{
    let (x0, y0) = choose|x: int, y: int| qualifies(g, x, y);
    let mnx = lemma_min_qual_x(g, x0, y0);
    let mxx = lemma_max_qual_x(g, x0, y0);
    let mny = lemma_min_qual_y(g, x0, y0);
    let mxy = lemma_max_qual_y(g, x0, y0);
    let bb = BoundingBox {
        min_x: mnx as usize,
        max_x: mxx as usize,
        min_y: mny as usize,
        max_y: mxy as usize,
    };
    let wy1 = choose|y: int| qualifies(g, mnx, y);
    assert(qualifies(g, bb.min_x as int, wy1));
    let wy2 = choose|y: int| qualifies(g, mxx, y);
    assert(qualifies(g, bb.max_x as int, wy2));
    let wx1 = choose|x: int| qualifies(g, x, mny);
    assert(qualifies(g, wx1, bb.min_y as int));
    let wx2 = choose|x: int| qualifies(g, x, mxy);
    assert(qualifies(g, wx2, bb.max_y as int));
    assert(is_bounding_box(g, bb));
    lemma_bounding_box_unique(g, bb, spec_bbox(g));
}

/// The pixel at `(x, y)` lies strictly before the scan position `(xx, yy)`
/// of a row-major scan, and qualifies.
spec fn scanned(g: Seq<Seq<Pixel>>, yy: int, xx: int, x: int, y: int) -> bool {
    &&& qualifies(g, x, y)
    &&& (y < yy || (y == yy && x < xx))
}

/// `bb` is exactly the bounding box of the pixels scanned so far.
spec fn bb_inv(g: Seq<Seq<Pixel>>, bb: BoundingBox, yy: int, xx: int) -> bool {
    &&& bb.min_x <= bb.max_x < grid_width(g)
    &&& bb.min_y <= bb.max_y < grid_height(g)
    &&& forall|x: int, y: int| scanned(g, yy, xx, x, y) ==> bb_contains(bb, x, y)
    &&& exists|y: int| scanned(g, yy, xx, bb.min_x as int, y)
    &&& exists|y: int| scanned(g, yy, xx, bb.max_x as int, y)
    &&& exists|x: int| scanned(g, yy, xx, x, bb.min_y as int)
    &&& exists|x: int| scanned(g, yy, xx, x, bb.max_y as int)
}

/// Moving the scan position forward keeps every witness scanned.
proof fn lemma_bb_inv_attained(g: Seq<Seq<Pixel>>, bb: BoundingBox, y0: int, x0: int, y1: int, x1: int)
    requires
        bb_inv(g, bb, y0, x0),
        y1 > y0 || (y1 == y0 && x1 >= x0),
        forall|x: int, y: int|
            scanned(g, y1, x1, x, y) && !scanned(g, y0, x0, x, y) ==> bb_contains(bb, x, y),
    ensures
        bb_inv(g, bb, y1, x1),
{
    let wy1 = choose|y: int| scanned(g, y0, x0, bb.min_x as int, y);
    assert(scanned(g, y1, x1, bb.min_x as int, wy1));
    let wy2 = choose|y: int| scanned(g, y0, x0, bb.max_x as int, y);
    assert(scanned(g, y1, x1, bb.max_x as int, wy2));
    let wx1 = choose|x: int| scanned(g, y0, x0, x, bb.min_y as int);
    assert(scanned(g, y1, x1, wx1, bb.min_y as int));
    let wx2 = choose|x: int| scanned(g, y0, x0, x, bb.max_y as int);
    assert(scanned(g, y1, x1, wx2, bb.max_y as int));
}

impl PixelBuffer {
    /// Scans every pixel once, row-major, and returns the bounding box of
    /// the non-transparent content, or `None` when every pixel is fully
    /// transparent.
    pub fn bounding_box(&self) -> (r: Option<BoundingBox>)
        requires
            self.wf(),
        ensures
            match r {
                Some(bb) => has_content(self@) && is_bounding_box(self@, bb),
                None => !has_content(self@),
            },
    {
        let w = self.width;
        let h = self.height;
        proof {
            self.lemma_wf_grid();
        }
        let mut cur: Option<BoundingBox> = None;
        let mut y: usize = 0;
        while y < h
            invariant
                y <= h,
                self.wf(),
                w == self.width,
                h == self.height,
                grid_height(self@) == h,
                h > 0 ==> grid_width(self@) == w,
                match cur {
                    None => forall|x2: int, y2: int| !scanned(self@, y as int, 0, x2, y2),
                    Some(bb) => bb_inv(self@, bb, y as int, 0),
                },
            decreases h - y,
        {
            let mut x: usize = 0;
            while x < w
                invariant
                    x <= w,
                    y < h,
                    self.wf(),
                    w == self.width,
                    h == self.height,
                    grid_height(self@) == h,
                    grid_width(self@) == w,
                    match cur {
                        None => forall|x2: int, y2: int| !scanned(self@, y as int, x as int, x2, y2),
                        Some(bb) => bb_inv(self@, bb, y as int, x as int),
                    },
                decreases w - x,
            {
                proof {
                    assert(self.rows@.len() == self@.len());
                    assert(self.rows@[y as int]@ == self@[y as int]);
                }
                let p = self.rows[y][x];
                if p.a != 0 {
                    let next = match cur {
                        None => BoundingBox { min_x: x, max_x: x, min_y: y, max_y: y },
                        Some(bb) => BoundingBox {
                            min_x: if x < bb.min_x {
                                x
                            } else {
                                bb.min_x
                            },
                            max_x: if x > bb.max_x {
                                x
                            } else {
                                bb.max_x
                            },
                            min_y: if y < bb.min_y {
                                y
                            } else {
                                bb.min_y
                            },
                            max_y: if y > bb.max_y {
                                y
                            } else {
                                bb.max_y
                            },
                        },
                    };
                    proof {
                        let xn = x as int + 1;
                        assert(qualifies(self@, x as int, y as int));
                        assert(scanned(self@, y as int, xn, x as int, y as int));
                        assert forall|x2: int, y2: int|
                            scanned(self@, y as int, xn, x2, y2) implies bb_contains(
                            next,
                            x2,
                            y2,
                        ) by {
                            if scanned(self@, y as int, x as int, x2, y2) {
                                assert(cur matches Some(bb) ==> bb_contains(bb, x2, y2));
                            } else {
                                assert(x2 == x as int && y2 == y as int);
                            }
                        }
                        if let Some(bb) = cur {
                            if next.min_x == bb.min_x {
                                let wy = choose|y2: int|
                                    scanned(self@, y as int, x as int, bb.min_x as int, y2);
                                assert(scanned(self@, y as int, xn, next.min_x as int, wy));
                            }
                            if next.max_x == bb.max_x {
                                let wy = choose|y2: int|
                                    scanned(self@, y as int, x as int, bb.max_x as int, y2);
                                assert(scanned(self@, y as int, xn, next.max_x as int, wy));
                            }
                            if next.min_y == bb.min_y {
                                let wx = choose|x2: int|
                                    scanned(self@, y as int, x as int, x2, bb.min_y as int);
                                assert(scanned(self@, y as int, xn, wx, next.min_y as int));
                            }
                            if next.max_y == bb.max_y {
                                let wx = choose|x2: int|
                                    scanned(self@, y as int, x as int, x2, bb.max_y as int);
                                assert(scanned(self@, y as int, xn, wx, next.max_y as int));
                            }
                        }
                        assert(next.min_x <= next.max_x < grid_width(self@));
                        assert(next.min_y <= next.max_y < grid_height(self@));
                        assert(exists|y2: int| scanned(self@, y as int, xn, next.min_x as int, y2));
                        assert(exists|y2: int| scanned(self@, y as int, xn, next.max_x as int, y2));
                        assert(exists|x2: int| scanned(self@, y as int, xn, x2, next.min_y as int));
                        assert(exists|x2: int| scanned(self@, y as int, xn, x2, next.max_y as int));
                        assert(bb_inv(self@, next, y as int, xn));
                    }
                    cur = Some(next);
                } else {
                    proof {
                        let xn = x as int + 1;
                        assert forall|x2: int, y2: int|
                            scanned(self@, y as int, xn, x2, y2) implies scanned(
                            self@,
                            y as int,
                            x as int,
                            x2,
                            y2,
                        ) by {
                            assert(self@[y as int][x as int].a == 0);
                        }
                        if cur is None {
                            assert forall|x2: int, y2: int| !scanned(self@, y as int, xn, x2, y2) by {
                                assert(!scanned(self@, y as int, x as int, x2, y2));
                                assert(self@[y as int][x as int].a == 0);
                            }
                        }
                        if let Some(bb) = cur {
                            lemma_bb_inv_attained(
                                self@,
                                bb,
                                y as int,
                                x as int,
                                y as int,
                                x as int + 1,
                            );
                        }
                    }
                }
                x += 1;
            }
            proof {
                let yn = y as int + 1;
                assert forall|x2: int, y2: int|
                    scanned(self@, yn, 0, x2, y2) implies scanned(
                    self@,
                    y as int,
                    w as int,
                    x2,
                    y2,
                ) by {
                }
                if cur is None {
                    assert forall|x2: int, y2: int| !scanned(self@, yn, 0, x2, y2) by {
                        assert(!scanned(self@, y as int, w as int, x2, y2));
                    }
                }
                if let Some(bb) = cur {
                    lemma_bb_inv_attained(self@, bb, y as int, w as int, yn, 0);
                }
            }
            y += 1;
        }
        proof {
            match cur {
                None => {
                    assert(forall|x2: int, y2: int|
                        qualifies(self@, x2, y2) ==> scanned(self@, h as int, 0, x2, y2));
                }
                Some(bb) => {
                    assert(forall|x2: int, y2: int|
                        qualifies(self@, x2, y2) ==> scanned(self@, h as int, 0, x2, y2));
                    let wy = choose|y2: int| scanned(self@, h as int, 0, bb.min_x as int, y2);
                    assert(qualifies(self@, bb.min_x as int, wy));
                    let wy2 = choose|y2: int| scanned(self@, h as int, 0, bb.max_x as int, y2);
                    assert(qualifies(self@, bb.max_x as int, wy2));
                    let wx = choose|x2: int| scanned(self@, h as int, 0, x2, bb.min_y as int);
                    assert(qualifies(self@, wx, bb.min_y as int));
                    let wx2 = choose|x2: int| scanned(self@, h as int, 0, x2, bb.max_y as int);
                    assert(qualifies(self@, wx2, bb.max_y as int));
                }
            }
        }
        cur
    }
}

} // verus!
