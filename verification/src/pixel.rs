use vstd::prelude::*;
use vstd::arithmetic::div_mod::lemma_fundamental_div_mod_converse;

verus! {

/// One pixel: red, green, blue and alpha channels, 8 bits each.
/// An alpha of 0 is fully transparent; 255 is fully opaque.
#[derive(Clone, Copy, PartialEq, Eq, Structural, Debug)]
pub struct Pixel {
    pub r: u8,
    pub g: u8,
    pub b: u8,
    pub a: u8,
}

/// The fully transparent pixel, used to fill the square canvas.
pub open spec fn transparent() -> Pixel {
    Pixel { r: 0, g: 0, b: 0, a: 0 }
}

/// Height of a pixel grid: its number of rows.
pub open spec fn grid_height(g: Seq<Seq<Pixel>>) -> int {
    g.len() as int
}

/// Width of a pixel grid: the length of its first row (0 if it has none).
pub open spec fn grid_width(g: Seq<Seq<Pixel>>) -> int {
    if g.len() == 0 {
        0
    } else {
        g[0].len() as int
    }
}

/// A grid is rectangular: every row has the width of the first.
pub open spec fn grid_wf(g: Seq<Seq<Pixel>>) -> bool {
    forall|y: int| 0 <= y < g.len() ==> (#[trigger] g[y]).len() == grid_width(g)
}

/// The pixel that the four bytes at index `4 * (y * w + x)` of a raw
/// RGBA byte sequence of row width `w` spell, channel order R, G, B, A.
pub open spec fn pixel_at_raw(raw: Seq<u8>, w: int, x: int, y: int) -> Pixel {
    Pixel {
        r: raw[4 * (y * w + x)],
        g: raw[4 * (y * w + x) + 1],
        b: raw[4 * (y * w + x) + 2],
        a: raw[4 * (y * w + x) + 3],
    }
}

/// The grid that a raw RGBA byte sequence of dimensions `w` by `h` spells.
pub open spec fn grid_of_raw(w: nat, h: nat, raw: Seq<u8>) -> Seq<Seq<Pixel>> {
    Seq::new(h, |y: int| Seq::new(w, |x: int| pixel_at_raw(raw, w as int, x, y)))
}

/// The raw RGBA byte sequence that a grid spells, row by row.
pub open spec fn raw_of_grid(g: Seq<Seq<Pixel>>) -> Seq<u8> {
    Seq::new(
        (4 * grid_width(g) * grid_height(g)) as nat,
        |i: int|
            {
                let k = i / 4;
                let p = g[k / grid_width(g)][k % grid_width(g)];
                if i % 4 == 0 {
                    p.r
                } else if i % 4 == 1 {
                    p.g
                } else if i % 4 == 2 {
                    p.b
                } else {
                    p.a
                }
            },
    )
}

/// Where the bytes of the pixel at `(x, y)` stand in `raw_of_grid`.
pub proof fn lemma_raw_of_grid_index(g: Seq<Seq<Pixel>>, x: int, y: int)
    requires
        grid_wf(g),
        0 <= x < grid_width(g),
        0 <= y < grid_height(g),
    ensures
        4 * (y * grid_width(g) + x) + 3 < raw_of_grid(g).len(),
        raw_of_grid(g)[4 * (y * grid_width(g) + x)] == g[y][x].r,
        raw_of_grid(g)[4 * (y * grid_width(g) + x) + 1] == g[y][x].g,
        raw_of_grid(g)[4 * (y * grid_width(g) + x) + 2] == g[y][x].b,
        raw_of_grid(g)[4 * (y * grid_width(g) + x) + 3] == g[y][x].a,
{
    let w = grid_width(g);
    let h = grid_height(g);
    let k = y * w + x;
    assert(0 <= y * w + x && 4 * (y * w + x) + 3 < 4 * w * h) by (nonlinear_arith)
        requires
            0 <= x < w,
            0 <= y < h,
    ;
    lemma_fundamental_div_mod_converse(k, w, y, x);
    lemma_fundamental_div_mod_converse(4 * k, 4, k, 0);
    lemma_fundamental_div_mod_converse(4 * k + 1, 4, k, 1);
    lemma_fundamental_div_mod_converse(4 * k + 2, 4, k, 2);
    lemma_fundamental_div_mod_converse(4 * k + 3, 4, k, 3);
}

/// A rectangular grid of RGBA pixels, `width` by `height`.
/// Its view is the sequence of its rows, top to bottom.
pub struct PixelBuffer {
    pub width: usize,
    pub height: usize,
    pub rows: Vec<Vec<Pixel>>,
}

impl View for PixelBuffer {
    type V = Seq<Seq<Pixel>>;

    open spec fn view(&self) -> Seq<Seq<Pixel>> {
        self.rows@.map_values(|row: Vec<Pixel>| row@)
    }
}

impl PixelBuffer {
    /// The stored dimensions match the grid, and the grid is rectangular.
    pub open spec fn wf(self) -> bool {
        &&& self@.len() == self.height
        &&& forall|y: int| 0 <= y < self@.len() ==> (#[trigger] self@[y]).len() == self.width
    }

    pub proof fn lemma_wf_grid(self)
        requires
            self.wf(),
        ensures
            grid_wf(self@),
            grid_height(self@) == self.height,
            self.height > 0 ==> grid_width(self@) == self.width,
    {
    }

    /// Builds the buffer that a raw RGBA byte sequence spells.
    pub fn from_raw(width: usize, height: usize, raw: &[u8]) -> (r: PixelBuffer)
        requires
            raw@.len() == 4 * width * height,
        ensures
            r.wf(),
            r.width == width,
            r.height == height,
            r@ == grid_of_raw(width as nat, height as nat, raw@),
    {
        let ghost g = grid_of_raw(width as nat, height as nat, raw@);
        let n = raw.len();
        let mut rows: Vec<Vec<Pixel>> = Vec::new();
        let mut y: usize = 0;
        while y < height
            invariant
                y <= height,
                raw@.len() == 4 * width * height,
                raw@.len() <= usize::MAX,
                g == grid_of_raw(width as nat, height as nat, raw@),
                rows@.len() == y,
                forall|j: int| 0 <= j < y ==> (#[trigger] rows@[j])@ == g[j],
            decreases height - y,
        {
            let mut row: Vec<Pixel> = Vec::new();
            let mut x: usize = 0;
            while x < width
                invariant
                    x <= width,
                    y < height,
                    raw@.len() == 4 * width * height,
                    raw@.len() <= usize::MAX,
                    row@.len() == x,
                    forall|i: int| 0 <= i < x ==> row@[i] == pixel_at_raw(
                        raw@,
                        width as int,
                        i,
                        y as int,
                    ),
                decreases width - x,
            {
                proof {
                    assert(4 * ((y as int) * (width as int) + (x as int)) + 3 < 4 * (width as int)
                        * (height as int)) by (nonlinear_arith)
                        requires
                            0 <= x < width,
                            0 <= y < height,
                    ;
                }
                let base: usize = 4 * (y * width + x);
                let p = Pixel { r: raw[base], g: raw[base + 1], b: raw[base + 2], a: raw[base + 3] };
                row.push(p);
                x += 1;
            }
            proof {
                assert(row@ =~= g[y as int]);
            }
            rows.push(row);
            y += 1;
        }
        let r = PixelBuffer { width, height, rows };
        proof {
            assert(r@ =~= g);
        }
        r
    }

    /// Spells the buffer back out as raw RGBA bytes, row by row.
    pub fn to_raw(&self) -> (r: Vec<u8>)
        requires
            self.wf(),
        ensures
            r@ == raw_of_grid(self@),
    {
        let ghost out = raw_of_grid(self@);
        proof {
            self.lemma_wf_grid();
        }
        let w = self.width;
        let h = self.height;
        let mut r: Vec<u8> = Vec::new();
        let mut y: usize = 0;
        while y < h
            invariant
                y <= h,
                self.wf(),
                w == self.width,
                h == self.height,
                out == raw_of_grid(self@),
                grid_height(self@) == h,
                h > 0 ==> grid_width(self@) == w,
                grid_wf(self@),
                r@ == out.subrange(0, 4 * ((y as int) * (w as int))),
            decreases h - y,
        {
            let mut x: usize = 0;
            while x < w
                invariant
                    x <= w,
                    y < h,
                    self.wf(),
                    w == self.width,
                    h == self.height,
                    out == raw_of_grid(self@),
                    grid_width(self@) == w,
                    grid_height(self@) == h,
                    grid_wf(self@),
                    r@ == out.subrange(0, 4 * ((y as int) * (w as int) + (x as int))),
                decreases w - x,
            {
                proof {
                    lemma_raw_of_grid_index(self@, x as int, y as int);
                    assert(self.rows@.len() == self@.len());
                    assert(self.rows@[y as int]@ == self@[y as int]);
                }
                let p = self.rows[y][x];
                r.push(p.r);
                r.push(p.g);
                r.push(p.b);
                r.push(p.a);
                proof {
                    assert(4 * ((y as int) * (w as int) + (x as int) + 1) == 4 * ((y as int) * (
                    w as int) + (x as int)) + 4);
                    assert(r@ =~= out.subrange(
                        0,
                        4 * ((y as int) * (w as int) + (x as int) + 1),
                    ));
                }
                x += 1;
            }
            proof {
                assert(((y as int) + 1) * (w as int) == (y as int) * (w as int) + (w as int))
                    by (nonlinear_arith);
            }
            y += 1;
        }
        proof {
            let gw = grid_width(self@);
            let gh = grid_height(self@);
            assert(4 * ((y as int) * (w as int)) == 4 * gw * gh && 4 * gw * gh >= 0)
                by (nonlinear_arith)
                requires
                    y == h,
                    gh == h as int,
                    h > 0 ==> gw == w as int,
                    gh >= 0,
                    gw >= 0,
            ;
            assert(r@ =~= out);
        }
        r
    }
}

} // verus!
