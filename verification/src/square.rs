use vstd::prelude::*;
use crate::pixel::{Pixel, PixelBuffer, transparent, grid_height, grid_width, grid_wf};
use crate::bbox::{
    BoundingBox, bb_contains, qualifies, has_content, is_bounding_box, spec_bbox,
    lemma_bounding_box_unique, lemma_bbox_exists,
};
use crate::error::Error;

verus! {

/// Width of the crop. Extents are inclusive of both edges: a single
/// qualifying pixel crops to a 1 by 1 image.
pub open spec fn crop_w(g: Seq<Seq<Pixel>>) -> int {
    spec_bbox(g).max_x - spec_bbox(g).min_x + 1
}

/// Height of the crop, inclusive of both edges.
pub open spec fn crop_h(g: Seq<Seq<Pixel>>) -> int {
    spec_bbox(g).max_y - spec_bbox(g).min_y + 1
}

/// Side of the square canvas: the larger crop extent.
pub open spec fn side(g: Seq<Seq<Pixel>>) -> int {
    if crop_w(g) >= crop_h(g) {
        crop_w(g)
    } else {
        crop_h(g)
    }
}

/// How far the crop is shifted right to be centered (floor division).
pub open spec fn shift_x(g: Seq<Seq<Pixel>>) -> int {
    (side(g) - crop_w(g)) / 2
}

/// How far the crop is shifted down to be centered (floor division).
pub open spec fn shift_y(g: Seq<Seq<Pixel>>) -> int {
    (side(g) - crop_h(g)) / 2
}

/// The squarified pixel at `(x, y)`: the source pixel that the centered
/// crop puts there, and the fully transparent pixel everywhere else.
pub open spec fn squarified_pix(g: Seq<Seq<Pixel>>, x: int, y: int) -> Pixel {
    if shift_x(g) <= x < shift_x(g) + crop_w(g) && shift_y(g) <= y < shift_y(g) + crop_h(g) {
        g[y - shift_y(g) + spec_bbox(g).min_y][x - shift_x(g) + spec_bbox(g).min_x]
    } else {
        transparent()
    }
}

/// The whole squarified image: a `side` by `side` grid.
pub open spec fn squarified_grid(g: Seq<Seq<Pixel>>) -> Seq<Seq<Pixel>> {
    Seq::new(side(g) as nat, |y: int| Seq::new(side(g) as nat, |x: int| squarified_pix(g, x, y)))
}

impl PixelBuffer {
    /// Crops the buffer to the bounding box of its non-transparent content
    /// and centers the crop on a transparent square canvas whose side is the
    /// larger crop extent. Fails when every pixel is fully transparent.
    pub fn squarify(&self) -> (r: Result<PixelBuffer, Error>)
        requires
            self.wf(),
        ensures
            !has_content(self@) ==> r == Err::<PixelBuffer, Error>(Error::EmptyContent),
            has_content(self@) ==> (match r {
                Ok(out) => {
                    &&& is_bounding_box(self@, spec_bbox(self@))
                    &&& out.wf()
                    &&& out.width == side(self@)
                    &&& out.height == side(self@)
                    &&& out@ == squarified_grid(self@)
                },
                Err(_) => false,
            }),
    {
        proof {
            self.lemma_wf_grid();
        }
        match self.bounding_box() {
            None => Err(Error::EmptyContent),
            Some(bb) => {
                proof {
                    lemma_bounding_box_unique(self@, bb, spec_bbox(self@));
                }
                let ghost g = self@;
                let cw = bb.max_x - bb.min_x + 1;
                let ch = bb.max_y - bb.min_y + 1;
                let n = if cw >= ch {
                    cw
                } else {
                    ch
                };
                let sx = (n - cw) / 2;
                let sy = (n - ch) / 2;
                proof {
                    assert(cw == crop_w(g) && ch == crop_h(g) && n == side(g) && sx == shift_x(g)
                        && sy == shift_y(g));
                    assert(sx + cw <= n && sy + ch <= n);
                }
                let mut rows: Vec<Vec<Pixel>> = Vec::new();
                let mut y: usize = 0;
                while y < n
                    invariant
                        y <= n,
                        self.wf(),
                        g == self@,
                        is_bounding_box(g, bb),
                        bb == spec_bbox(g),
                        grid_height(g) == self.height,
                        grid_width(g) == self.width,
                        cw == crop_w(g),
                        ch == crop_h(g),
                        n == side(g),
                        sx == shift_x(g),
                        sy == shift_y(g),
                        sx + cw <= n,
                        sy + ch <= n,
                        rows@.len() == y,
                        forall|j: int| 0 <= j < y ==> (#[trigger] rows@[j])@ == squarified_grid(g)[j],
                    decreases n - y,
                {
                    let mut row: Vec<Pixel> = Vec::new();
                    let mut x: usize = 0;
                    while x < n
                        invariant
                            x <= n,
                            y < n,
                            self.wf(),
                            g == self@,
                            is_bounding_box(g, bb),
                            bb == spec_bbox(g),
                            grid_height(g) == self.height,
                            grid_width(g) == self.width,
                            cw == crop_w(g),
                            ch == crop_h(g),
                            n == side(g),
                            sx == shift_x(g),
                            sy == shift_y(g),
                            sx + cw <= n,
                            sy + ch <= n,
                            row@.len() == x,
                            forall|i: int| 0 <= i < x ==> row@[i] == squarified_pix(g, i, y as int),
                        decreases n - x,
                    {
                        let p = if sx <= x && x < sx + cw && sy <= y && y < sy + ch {
                            let yy = y - sy + bb.min_y;
                            let xx = x - sx + bb.min_x;
                            proof {
                                assert(yy <= bb.max_y && xx <= bb.max_x);
                                assert(self.rows@.len() == self@.len());
                                assert(self.rows@[yy as int]@ == self@[yy as int]);
                            }
                            self.rows[yy][xx]
                        } else {
                            Pixel { r: 0, g: 0, b: 0, a: 0 }
                        };
                        row.push(p);
                        x += 1;
                    }
                    proof {
                        assert(row@ =~= squarified_grid(g)[y as int]);
                    }
                    rows.push(row);
                    y += 1;
                }
                let out = PixelBuffer { width: n, height: n, rows };
                proof {
                    assert(out@ =~= squarified_grid(g));
                }
                Ok(out)
            },
        }
    }
}

/// A buffer with no transparency at all squarifies to a square of side
/// `max(width, height)` that holds the whole source, pixel for pixel,
/// centered; the crop is the full frame.
pub proof fn lemma_squarify_opaque(g: Seq<Seq<Pixel>>, out: Seq<Seq<Pixel>>)
    requires
        grid_wf(g),
        0 < grid_width(g) <= usize::MAX,
        0 < grid_height(g) <= usize::MAX,
        forall|x: int, y: int|
            0 <= x < grid_width(g) && 0 <= y < grid_height(g) ==> (#[trigger] g[y][x]).a == 255,
        out == squarified_grid(g),
    ensures
        crop_w(g) == grid_width(g),
        crop_h(g) == grid_height(g),
        side(g) == (if grid_width(g) >= grid_height(g) {
            grid_width(g)
        } else {
            grid_height(g)
        }),
        grid_height(out) == side(g),
        grid_width(out) == side(g),
        forall|x: int, y: int|
            0 <= x < grid_width(g) && 0 <= y < grid_height(g) ==> out[y + shift_y(g)][x + shift_x(
                g,
            )] == #[trigger] g[y][x],
{
    let fb = BoundingBox {
        min_x: 0,
        max_x: (grid_width(g) - 1) as usize,
        min_y: 0,
        max_y: (grid_height(g) - 1) as usize,
    };
    assert(qualifies(g, fb.min_x as int, 0));
    assert(qualifies(g, fb.max_x as int, 0));
    assert(qualifies(g, 0, fb.min_y as int));
    assert(qualifies(g, 0, fb.max_y as int));
    assert(exists|y: int| qualifies(g, fb.min_x as int, y));
    assert(exists|y: int| qualifies(g, fb.max_x as int, y));
    assert(exists|x: int| qualifies(g, x, fb.min_y as int));
    assert(exists|x: int| qualifies(g, x, fb.max_y as int));
    assert(forall|x: int, y: int| qualifies(g, x, y) ==> bb_contains(fb, x, y));
    assert(is_bounding_box(g, fb));
    lemma_bounding_box_unique(g, fb, spec_bbox(g));
    assert(side(g) >= crop_w(g) && side(g) >= crop_h(g));
    assert(shift_x(g) + crop_w(g) <= side(g) && shift_y(g) + crop_h(g) <= side(g));
    assert forall|x: int, y: int|
        0 <= x < grid_width(g) && 0 <= y < grid_height(g) implies out[y + shift_y(g)][x + shift_x(
        g,
    )] == #[trigger] g[y][x] by {
        assert(squarified_pix(g, x + shift_x(g), y + shift_y(g)) == g[y][x]);
    }
}

/// Squarifying is idempotent: squarifying the output of one application
/// changes nothing, because the added border is fully transparent, so the
/// output's bounding box is exactly the pasted crop.
pub proof fn lemma_squarify_idempotent(g: Seq<Seq<Pixel>>, out: Seq<Seq<Pixel>>)
    requires
        grid_wf(g),
        has_content(g),
        grid_width(g) <= usize::MAX,
        grid_height(g) <= usize::MAX,
        out == squarified_grid(g),
    ensures
        has_content(out),
        is_bounding_box(out, spec_bbox(out)),
        squarified_grid(out) == out,
{
    lemma_bbox_exists(g);
    let b = spec_bbox(g);
    let cw = crop_w(g);
    let ch = crop_h(g);
    let n = side(g);
    let sx = shift_x(g);
    let sy = shift_y(g);
    assert(sx + cw <= n && sy + ch <= n);
    assert(grid_height(out) == n);
    assert(grid_width(out) == n);
    let b2 = BoundingBox {
        min_x: sx as usize,
        max_x: (sx + cw - 1) as usize,
        min_y: sy as usize,
        max_y: (sy + ch - 1) as usize,
    };
    // Every qualifying pixel of the output lies in the pasted rectangle.
    assert forall|x: int, y: int| qualifies(out, x, y) implies bb_contains(b2, x, y) by {
        assert(out[y][x] == squarified_pix(g, x, y));
    }
    // Each edge of the pasted rectangle is attained.
    let wy1 = choose|y: int| qualifies(g, b.min_x as int, y);
    assert(qualifies(out, sx, wy1 - b.min_y + sy)) by {
        assert(squarified_pix(g, sx, wy1 - b.min_y + sy) == g[wy1][b.min_x as int]);
    }
    let wy2 = choose|y: int| qualifies(g, b.max_x as int, y);
    assert(qualifies(out, sx + cw - 1, wy2 - b.min_y + sy)) by {
        assert(squarified_pix(g, sx + cw - 1, wy2 - b.min_y + sy) == g[wy2][b.max_x as int]);
    }
    let wx1 = choose|x: int| qualifies(g, x, b.min_y as int);
    assert(qualifies(out, wx1 - b.min_x + sx, sy)) by {
        assert(squarified_pix(g, wx1 - b.min_x + sx, sy) == g[b.min_y as int][wx1]);
    }
    let wx2 = choose|x: int| qualifies(g, x, b.max_y as int);
    assert(qualifies(out, wx2 - b.min_x + sx, sy + ch - 1)) by {
        assert(squarified_pix(g, wx2 - b.min_x + sx, sy + ch - 1) == g[b.max_y as int][wx2]);
    }
    assert(exists|y: int| qualifies(out, b2.min_x as int, y));
    assert(exists|y: int| qualifies(out, b2.max_x as int, y));
    assert(exists|x: int| qualifies(out, x, b2.min_y as int));
    assert(exists|x: int| qualifies(out, x, b2.max_y as int));
    assert(is_bounding_box(out, b2));
    lemma_bounding_box_unique(out, b2, spec_bbox(out));
    assert(crop_w(out) == cw && crop_h(out) == ch && side(out) == n);
    assert(shift_x(out) == sx && shift_y(out) == sy);
    assert forall|y: int| 0 <= y < n implies squarified_grid(out)[y] =~= out[y] by {
        assert forall|x: int| 0 <= x < n implies squarified_pix(out, x, y) == out[y][x] by {
            if sx <= x < sx + cw && sy <= y < sy + ch {
                assert(squarified_pix(out, x, y) == out[y - sy + b2.min_y][x - sx + b2.min_x]);
            } else {
                assert(out[y][x] == squarified_pix(g, x, y));
            }
        }
    }
    assert(squarified_grid(out) =~= out);
}

} // verus!
