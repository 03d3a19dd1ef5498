//! Rasterizer: paints each entity's axis-aligned filled square into an RGBA
//! pixel buffer, clipped to the canvas, in record order — later records
//! overwrite earlier ones where they overlap (painter's algorithm).

use vstd::prelude::*;

verus! {

/// Field `f` of record `i` in a packed state buffer, as a mathematical
/// integer.
pub open spec fn urec_field(s: Seq<usize>, i: int, f: int) -> int {
    s[9 * i + f] as int
}

/// The fill color stored in record `i`; each stored field is reduced to a
/// byte.
pub open spec fn rec_color(s: Seq<usize>, i: int) -> (u8, u8, u8) {
    (
        (urec_field(s, i, 6) % 256) as u8,
        (urec_field(s, i, 7) % 256) as u8,
        (urec_field(s, i, 8) % 256) as u8,
    )
}

/// Whether the square of record `i` covers the point `(x, y)`.
pub open spec fn covers(s: Seq<usize>, i: int, x: int, y: int) -> bool {
    &&& urec_field(s, i, 1) <= x < urec_field(s, i, 1) + urec_field(s, i, 5)
    &&& urec_field(s, i, 2) <= y < urec_field(s, i, 2) + urec_field(s, i, 5)
}

/// Index of the last record among the first `k` whose square covers
/// `(x, y)`, or `-1` when none does. The last covering record is the one a
/// painter's algorithm leaves visible.
pub open spec fn top_cover(s: Seq<usize>, k: int, x: int, y: int) -> int
    decreases k,
{
    if k <= 0 {
        -1
    } else if covers(s, k - 1, x, y) {
        k - 1
    } else {
        top_cover(s, k - 1, x, y)
    }
}

/// Channel `c` of an RGBA pixel filled with `color`: the three color
/// components, then a fully opaque alpha.
pub open spec fn channel(color: (u8, u8, u8), c: int) -> u8 {
    if c == 0 {
        color.0
    } else if c == 1 {
        color.1
    } else if c == 2 {
        color.2
    } else {
        255u8
    }
}

/// Channel `c` of an RGBA pixel painted black (fully opaque).
pub open spec fn black_channel(c: int) -> u8 {
    if c == 3 {
        255u8
    } else {
        0u8
    }
}

/// Channel `c` of the canvas pixel `(x, y)` after the first `k` records were
/// painted in order over a pixel whose channel held `base_val`.
pub open spec fn painted_channel(
    s: Seq<usize>,
    k: int,
    x: int,
    y: int,
    c: int,
    base_val: u8,
) -> u8 {
    if top_cover(s, k, x, y) >= 0 {
        channel(rec_color(s, top_cover(s, k, x, y)), c)
    } else {
        base_val
    }
}

/// Channel `c` of the canvas pixel `(x, y)` after the footprints of the
/// first `k` records were erased (painted black) over a pixel whose channel
/// held `base_val`.
pub open spec fn erased_channel(
    s: Seq<usize>,
    k: int,
    x: int,
    y: int,
    c: int,
    base_val: u8,
) -> u8 {
    if top_cover(s, k, x, y) >= 0 {
        black_channel(c)
    } else {
        base_val
    }
}

/// Buffer index of channel `c` of the pixel `(x, y)` in a row-major RGBA
/// canvas of the given width.
pub open spec fn pix(width: int, x: int, y: int, c: int) -> int {
    (y * width + x) * 4 + c
}

/// A canvas point's pixel indices lie inside the canvas's RGBA byte range.
pub proof fn lemma_pix_in_bounds(width: int, height: int, x: int, y: int)
    requires
        0 <= x < width,
        0 <= y < height,
    ensures
        0 <= y * width + x,
        (y * width + x) * 4 + 3 < width * height * 4,
{
    assert(0 <= y * width) by (nonlinear_arith)
        requires
            0 <= y,
            0 <= width,
    ;
    assert(y * width + x < width * height) by (nonlinear_arith)
        requires
            0 <= x < width,
            0 <= y < height,
    ;
}

/// Distinct canvas channels have distinct buffer indices.
pub proof fn lemma_pix_distinct(
    width: int,
    x1: int,
    y1: int,
    c1: int,
    x2: int,
    y2: int,
    c2: int,
)
    requires
        0 <= x1 < width,
        0 <= x2 < width,
        0 <= c1 < 4,
        0 <= c2 < 4,
        0 <= y1,
        0 <= y2,
        !(x1 == x2 && y1 == y2 && c1 == c2),
    ensures
        pix(width, x1, y1, c1) != pix(width, x2, y2, c2),
{
    let a = y1 * width + x1;
    let b = y2 * width + x2;
    if y1 == y2 {
        assert(y1 * width == y2 * width);
    } else if y1 > y2 {
        assert(y1 * width - y2 * width >= width) by (nonlinear_arith)
            requires
                y1 >= y2 + 1,
                width > 0,
        ;
        assert(a > b);
    } else {
        assert(y2 * width - y1 * width >= width) by (nonlinear_arith)
            requires
                y2 >= y1 + 1,
                width > 0,
        ;
        assert(b > a);
    }
}

/// Painter order: among the first `k` records, if record `j` covers a point
/// and no later record does, record `j` is the one left visible there.
pub proof fn lemma_painter_order(s: Seq<usize>, k: int, j: int, x: int, y: int)
    requires
        0 <= j < k,
        covers(s, j, x, y),
        forall|t: int| j < t < k ==> !covers(s, t, x, y),
    ensures
        top_cover(s, k, x, y) == j,
    decreases k,
{
    if k > j + 1 {
        lemma_painter_order(s, k - 1, j, x, y);
    }
}

/// One entity's square as the rasterizer sees it, decoded from a record.
pub struct Entity {
    pub x: usize,
    pub y: usize,
    pub size: usize,
    pub color: (u8, u8, u8),
}

impl Entity {
    /// Whether this entity's square covers the point `(x, y)`.
    pub open spec fn covers_pt(self, x: int, y: int) -> bool {
        &&& self.x <= x < self.x + self.size
        &&& self.y <= y < self.y + self.size
    }

    /// Decode the square and color of record `i` of the state buffer.
    pub fn new(state: &Vec<usize>, i: usize) -> (e: Entity)
        requires
            9 * i + 9 <= state@.len(),
        ensures
            e.x == urec_field(state@, i as int, 1),
            e.y == urec_field(state@, i as int, 2),
            e.size == urec_field(state@, i as int, 5),
            e.color == rec_color(state@, i as int),
    {
        let len = state.len();
        assert(9 * i + 9 <= len);
        let base = 9 * i;
        let r = (state[base + 6] % 256) as u8;
        let g = (state[base + 7] % 256) as u8;
        let b = (state[base + 8] % 256) as u8;
        Entity { x: state[base + 1], y: state[base + 2], size: state[base + 5], color: (r, g, b) }
    }

    /// Paint this entity's square, clipped to the canvas, over the pixel
    /// buffer: every covered canvas pixel takes this entity's color with a
    /// fully opaque alpha, every other byte is untouched.
    #[verifier::loop_isolation(false)]
    pub fn paint(&self, pixels: &mut Vec<u8>, width: usize, height: usize)
        requires
            width * height * 4 <= old(pixels)@.len(),
        ensures
            final (pixels)@.len() == old(pixels)@.len(),
            forall|x: int, y: int, c: int|
                #![trigger pix(width as int, x, y, c)]
                0 <= x < width && 0 <= y < height && 0 <= c < 4 ==> final (pixels)@[pix(
                    width as int,
                    x,
                    y,
                    c,
                )] == (if self.covers_pt(x, y) {
                    channel(self.color, c)
                } else {
                    old(pixels)@[pix(width as int, x, y, c)]
                }),
            forall|k: int|
                width * height * 4 <= k < old(pixels)@.len() ==> final (pixels)@[k] == old(
                    pixels,
                )@[k],
    {
        let plen = pixels.len();
        assert(width * height * 4 <= plen);
        let ghost pix0 = pixels@;

        let lower_x = self.x;
        let sat_x = self.x.saturating_add(self.size);
        let upper_x = if sat_x < width {
            sat_x
        } else {
            width
        };
        let lower_y = self.y;
        let sat_y = self.y.saturating_add(self.size);
        let upper_y = if sat_y < height {
            sat_y
        } else {
            height
        };

        let mut x = lower_x;
        while x < upper_x
            invariant
                lower_x <= x,
                pixels@.len() == pix0.len(),
                forall|xx: int, yy: int, cc: int|
                    #![trigger pix(width as int, xx, yy, cc)]
                    0 <= xx < width && 0 <= yy < height && 0 <= cc < 4 ==> pixels@[pix(
                        width as int,
                        xx,
                        yy,
                        cc,
                    )] == (if self.covers_pt(xx, yy) && xx < x {
                        channel(self.color, cc)
                    } else {
                        pix0[pix(width as int, xx, yy, cc)]
                    }),
                forall|k: int| width * height * 4 <= k < pix0.len() ==> pixels@[k] == pix0[k],
            decreases upper_x - x,
        {
            let mut y = lower_y;
            while y < upper_y
                invariant
                    lower_y <= y,
                    pixels@.len() == pix0.len(),
                    forall|xx: int, yy: int, cc: int|
                        #![trigger pix(width as int, xx, yy, cc)]
                        0 <= xx < width && 0 <= yy < height && 0 <= cc < 4 ==> pixels@[pix(
                            width as int,
                            xx,
                            yy,
                            cc,
                        )] == (if self.covers_pt(xx, yy) && (xx < x || (xx == x && yy < y)) {
                            channel(self.color, cc)
                        } else {
                            pix0[pix(width as int, xx, yy, cc)]
                        }),
                    forall|k: int| width * height * 4 <= k < pix0.len() ==> pixels@[k] == pix0[k],
                decreases upper_y - y,
            {
                proof {
                    lemma_pix_in_bounds(width as int, height as int, x as int, y as int);
                }
                let idx = (y * width + x) * 4;
                let ghost before = pixels@;
                pixels[idx] = self.color.0;
                pixels[idx + 1] = self.color.1;
                pixels[idx + 2] = self.color.2;
                pixels[idx + 3] = 255;
                proof {
                    assert(self.covers_pt(x as int, y as int));
                    assert forall|xx: int, yy: int, cc: int|
                        #![trigger pix(width as int, xx, yy, cc)]
                        0 <= xx < width && 0 <= yy < height && 0 <= cc < 4 implies pixels@[pix(
                        width as int,
                        xx,
                        yy,
                        cc,
                    )] == (if self.covers_pt(xx, yy) && (xx < x || (xx == x && yy < y + 1)) {
                        channel(self.color, cc)
                    } else {
                        pix0[pix(width as int, xx, yy, cc)]
                    }) by {
                        assert(pix(width as int, x as int, y as int, 0) == idx);
                        assert(pix(width as int, x as int, y as int, 1) == idx + 1);
                        assert(pix(width as int, x as int, y as int, 2) == idx + 2);
                        assert(pix(width as int, x as int, y as int, 3) == idx + 3);
                        lemma_pix_in_bounds(width as int, height as int, xx, yy);
                        if xx == x && yy == y {
                            assert(pix(width as int, xx, yy, cc) == idx + cc);
                        } else {
                            lemma_pix_distinct(
                                width as int,
                                xx,
                                yy,
                                cc,
                                x as int,
                                y as int,
                                0,
                            );
                            lemma_pix_distinct(
                                width as int,
                                xx,
                                yy,
                                cc,
                                x as int,
                                y as int,
                                1,
                            );
                            lemma_pix_distinct(
                                width as int,
                                xx,
                                yy,
                                cc,
                                x as int,
                                y as int,
                                2,
                            );
                            lemma_pix_distinct(
                                width as int,
                                xx,
                                yy,
                                cc,
                                x as int,
                                y as int,
                                3,
                            );
                            assert(pixels@[pix(width as int, xx, yy, cc)] == before[pix(
                                width as int,
                                xx,
                                yy,
                                cc,
                            )]);
                        }
                    }
                }
                y = y + 1;
            }
            x = x + 1;
        }
    }
}

} // verus!
