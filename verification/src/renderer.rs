//! The framebuffer and the software rasterizer: a packed-color buffer
//! and a fixed-point depth buffer, with line, circle and triangle
//! drawing under a nearer-wins depth test.

use vstd::prelude::*;
use crate::fx::{
    fxm, fxd, sqrt_floor, fx_abs,
    fx_mul, fx_div, fx_mul_wide, isqrt, sq_i128,
    lemma_fxm_bound, lemma_fxd_bound,
};
use crate::math::{Vec2, Vec3, point_bounded3};

verus! {

/// The depth sentinel: every cleared pixel is infinitely far away.
pub const DEPTH_FAR: i64 = 0x7FFF_FFFF_FFFF_FFFF;

/// A color buffer of packed RGBA values and a parallel depth buffer,
/// row-major at a fixed resolution.
#[derive(Debug)]
pub struct Framebuffer {
    pub color_buffer: Vec<u32>,
    pub depth_buffer: Vec<i64>,
    pub width: usize,
    pub height: usize,
}

/// Well-formed: both buffers hold exactly width times height entries,
/// at a resolution whose pixel coordinates stay in fixed-point range.
pub open spec fn fb_wf(fb: Framebuffer) -> bool {
    &&& fb.color_buffer@.len() == fb.width * fb.height
    &&& fb.depth_buffer@.len() == fb.width * fb.height
    &&& fb.width <= 8192
    &&& fb.height <= 8192
}

/// The buffer index of a pixel.
pub open spec fn pix(fb: Framebuffer, x: int, y: int) -> int {
    y * fb.width + x
}

/// The new buffers differ from the old only where a pixel was painted
/// with this color at depth zero.
pub open spec fn painted_over(old_fb: Framebuffer, new_fb: Framebuffer, color: u32) -> bool {
    &&& new_fb.width == old_fb.width
    &&& new_fb.height == old_fb.height
    &&& new_fb.color_buffer@.len() == old_fb.color_buffer@.len()
    &&& new_fb.depth_buffer@.len() == old_fb.depth_buffer@.len()
    &&& forall|i: int|
        0 <= i < old_fb.color_buffer@.len() ==> (#[trigger] new_fb.color_buffer@[i]
            == old_fb.color_buffer@[i] && new_fb.depth_buffer@[i] == old_fb.depth_buffer@[i]) || (
        new_fb.color_buffer@[i] == color && new_fb.depth_buffer@[i] == 0)
}

/// A row-major pixel index stays inside its row.
pub proof fn lemma_row_major(x: int, y: int, w: int)
    requires
        0 <= x < w,
        0 <= y,
    ensures
        y * w <= y * w + x < (y + 1) * w,
{
    assert((y + 1) * w == y * w + w) by (nonlinear_arith);
}

/// Rows below stay below.
pub proof fn lemma_row_order(y1: int, y2: int, w: int)
    requires
        0 <= y1 <= y2,
        0 <= w,
    ensures
        y1 * w <= y2 * w,
{
    assert(y1 * w <= y2 * w) by (nonlinear_arith)
        requires
            0 <= y1 <= y2,
            0 <= w,
    ;
}

impl Framebuffer {
    /// A buffer of the given resolution, black and cleared to the far
    /// sentinel.
    pub fn new(width: usize, height: usize) -> (r: Framebuffer)
        requires
            width <= 8192,
            height <= 8192,
        ensures
            fb_wf(r),
            r.width == width,
            r.height == height,
            forall|i: int| 0 <= i < width * height ==> #[trigger] r.color_buffer@[i] == 0,
            forall|i: int| 0 <= i < width * height ==> #[trigger] r.depth_buffer@[i] == DEPTH_FAR,
    {
        proof {
            assert(width * height <= 8192 * 8192) by (nonlinear_arith)
                requires
                    width <= 8192,
                    height <= 8192,
            ;
        }
        let n = width * height;
        let mut color_buffer: Vec<u32> = Vec::new();
        let mut depth_buffer: Vec<i64> = Vec::new();
        let mut i: usize = 0;
        while i < n
            invariant
                i <= n,
                color_buffer@.len() == i,
                depth_buffer@.len() == i,
                forall|j: int| 0 <= j < i ==> #[trigger] color_buffer@[j] == 0,
                forall|j: int| 0 <= j < i ==> #[trigger] depth_buffer@[j] == DEPTH_FAR,
            decreases n - i,
        {
            color_buffer.push(0);
            depth_buffer.push(DEPTH_FAR);
            i = i + 1;
        }
        Framebuffer { color_buffer, depth_buffer, width, height }
    }

    /// Fills every color slot and resets every depth to the sentinel.
    pub fn clear(&mut self, color: u32)
        requires
            fb_wf(*old(self)),
        ensures
            fb_wf(*final(self)),
            final(self).width == old(self).width,
            final(self).height == old(self).height,
            forall|i: int|
                0 <= i < final(self).color_buffer@.len() ==> #[trigger] final(self).color_buffer@[i]
                    == color,
            forall|i: int|
                0 <= i < final(self).depth_buffer@.len() ==> #[trigger] final(self).depth_buffer@[i]
                    == DEPTH_FAR,
    {
        let n = self.color_buffer.len();
        let mut i: usize = 0;
        while i < n
            invariant
                i <= n,
                self.color_buffer@.len() == n,
                self.depth_buffer@.len() == old(self).depth_buffer@.len(),
                self.width == old(self).width,
                self.height == old(self).height,
                forall|j: int| 0 <= j < i ==> #[trigger] self.color_buffer@[j] == color,
            decreases n - i,
        {
            self.color_buffer[i] = color;
            i = i + 1;
        }
        let m = self.depth_buffer.len();
        let mut k: usize = 0;
        while k < m
            invariant
                k <= m,
                self.depth_buffer@.len() == m,
                self.color_buffer@.len() == n,
                self.width == old(self).width,
                self.height == old(self).height,
                forall|j: int| 0 <= j < n ==> #[trigger] self.color_buffer@[j] == color,
                forall|j: int| 0 <= j < k ==> #[trigger] self.depth_buffer@[j] == DEPTH_FAR,
            decreases m - k,
        {
            self.depth_buffer[k] = DEPTH_FAR;
            k = k + 1;
        }
    }

    /// Writes one pixel if it is in bounds and strictly nearer than
    /// what is stored: ties keep the existing pixel, farther writes are
    /// dropped, out-of-bounds writes are silently ignored.
    pub fn set_pixel(&mut self, x: usize, y: usize, color: u32, depth: i64)
        requires
            fb_wf(*old(self)),
        ensures
            fb_wf(*final(self)),
            final(self).width == old(self).width,
            final(self).height == old(self).height,
            x < old(self).width && y < old(self).height && depth < old(self).depth_buffer@[pix(
                *old(self),
                x as int,
                y as int,
            )] ==> final(self).color_buffer@ == old(self).color_buffer@.update(
                pix(*old(self), x as int, y as int),
                color,
            ) && final(self).depth_buffer@ == old(self).depth_buffer@.update(
                pix(*old(self), x as int, y as int),
                depth,
            ),
            !(x < old(self).width && y < old(self).height && depth < old(self).depth_buffer@[pix(
                *old(self),
                x as int,
                y as int,
            )]) ==> final(self).color_buffer@ == old(self).color_buffer@
                && final(self).depth_buffer@ == old(self).depth_buffer@,
    {
        if x < self.width && y < self.height {
            proof {
                lemma_row_major(x as int, y as int, self.width as int);
                lemma_row_order(y as int + 1, self.height as int, self.width as int);
                assert(self.height * self.width <= 8192 * 8192) by (nonlinear_arith)
                    requires
                        self.width <= 8192,
                        self.height <= 8192,
                ;
                assert(self.height * self.width == self.width * self.height) by (nonlinear_arith);
                assert((y as int) * (self.width as int) + (x as int) < self.color_buffer@.len());
            }
            let index = y * self.width + x;
            if depth < self.depth_buffer[index] {
                self.color_buffer[index] = color;
                self.depth_buffer[index] = depth;
            }
        }
    }

    /// The color buffer decomposed into row-major RGBA bytes, the only
    /// point where the packed 32-bit layout is taken apart.
    pub fn to_rgba_bytes(&self) -> (r: Vec<u8>)
        requires
            fb_wf(*self),
        ensures
            r@.len() == 4 * self.color_buffer@.len(),
            forall|i: int|
                0 <= i < self.color_buffer@.len() ==> {
                    let c = #[trigger] self.color_buffer@[i];
                    r@[4 * i] == (c >> 24) as u8 && r@[4 * i + 1] == ((c >> 16) & 0xFF) as u8
                        && r@[4 * i + 2] == ((c >> 8) & 0xFF) as u8 && r@[4 * i + 3] == (c
                        & 0xFF) as u8
                },
    {
        let n = self.color_buffer.len();
        let mut bytes: Vec<u8> = Vec::new();
        let mut i: usize = 0;
        while i < n
            invariant
                i <= n,
                n == self.color_buffer@.len(),
                bytes@.len() == 4 * i,
                forall|j: int|
                    0 <= j < i ==> {
                        let c = #[trigger] self.color_buffer@[j];
                        bytes@[4 * j] == (c >> 24) as u8 && bytes@[4 * j + 1] == ((c >> 16)
                            & 0xFF) as u8 && bytes@[4 * j + 2] == ((c >> 8) & 0xFF) as u8
                            && bytes@[4 * j + 3] == (c & 0xFF) as u8
                    },
            decreases n - i,
        {
            let pixel = self.color_buffer[i];
            bytes.push((pixel >> 24) as u8);
            bytes.push(((pixel >> 16) & 0xFF) as u8);
            bytes.push(((pixel >> 8) & 0xFF) as u8);
            bytes.push((pixel & 0xFF) as u8);
            i = i + 1;
        }
        bytes
    }
}

} // verus!
verus! {

/// Rounding a screen coordinate to a pixel column or row: negative
/// coordinates saturate to zero, others round to nearest.
pub open spec fn px_round(a: int) -> int {
    if a < 0 {
        0int
    } else {
        (a + 32768) / 65536
    }
}

/// Truncating a screen coordinate to a pixel index: negative
/// coordinates saturate to zero, others round down.
pub open spec fn px_floor(a: int) -> int {
    if a < 0 {
        0int
    } else {
        a / 65536
    }
}

/// Painting relates framebuffers transitively.
pub proof fn lemma_painted_trans(f0: Framebuffer, f1: Framebuffer, f2: Framebuffer, color: u32)
    requires
        painted_over(f0, f1, color),
        painted_over(f1, f2, color),
    ensures
        painted_over(f0, f2, color),
{
}

/// A framebuffer is painted over itself.
pub proof fn lemma_painted_refl(f0: Framebuffer, color: u32)
    ensures
        painted_over(f0, f0, color),
{
}

/// An in-bounds pixel has an in-bounds buffer index.
pub proof fn lemma_pix_in_range(fb: Framebuffer, x: int, y: int)
    requires
        fb_wf(fb),
        0 <= x < fb.width,
        0 <= y < fb.height,
    ensures
        0 <= pix(fb, x, y) < fb.color_buffer@.len(),
        0 <= pix(fb, x, y) < fb.depth_buffer@.len(),
{
    lemma_row_major(x, y, fb.width as int);
    lemma_row_order(y + 1, fb.height as int, fb.width as int);
    assert(fb.height * fb.width == fb.width * fb.height) by (nonlinear_arith);
}

/// Writing one pixel to color and depth zero is a painting step.
pub proof fn lemma_painted_update(pre: Framebuffer, post: Framebuffer, idx: int, color: u32)
    requires
        0 <= idx < pre.color_buffer@.len(),
        pre.depth_buffer@.len() == pre.color_buffer@.len(),
        post.width == pre.width,
        post.height == pre.height,
        post.color_buffer@ == pre.color_buffer@.update(idx, color),
        post.depth_buffer@ == pre.depth_buffer@.update(idx, 0i64),
    ensures
        painted_over(pre, post, color),
{
    assert forall|i: int| 0 <= i < pre.color_buffer@.len() implies ((#[trigger] post
        .color_buffer@[i] == pre.color_buffer@[i] && post.depth_buffer@[i]
        == pre.depth_buffer@[i]) || (post.color_buffer@[i] == color && post.depth_buffer@[i]
        == 0)) by {
        if i == idx {
        }
    }
}

/// Distinct in-row pixels have distinct buffer indices.
pub proof fn lemma_pix_injective(x1: int, y1: int, x2: int, y2: int, w: int)
    requires
        0 <= x1 < w,
        0 <= x2 < w,
        0 <= y1,
        0 <= y2,
        y1 * w + x1 == y2 * w + x2,
    ensures
        x1 == x2,
        y1 == y2,
{
    assert(y1 == y2 && x1 == x2) by (nonlinear_arith)
        requires
            0 <= x1 < w,
            0 <= x2 < w,
            0 <= y1,
            0 <= y2,
            y1 * w + x1 == y2 * w + x2,
    ;
}

/// A pixel lies inside the filled circle when its Euclidean distance
/// to the center, in fixed-point units, is within the radius.
pub open spec fn in_circle(cx: int, cy: int, r: int, x: int, y: int) -> bool {
    0 <= r && sqrt_floor((x * 65536 - cx) * (x * 65536 - cx) + (y * 65536 - cy) * (y * 65536
        - cy)) <= r
}

/// Both buffers unchanged at this index.
pub open spec fn same_pix(fb0: Framebuffer, fbn: Framebuffer, i: int) -> bool {
    fbn.color_buffer@[i] == fb0.color_buffer@[i] && fbn.depth_buffer@[i] == fb0.depth_buffer@[i]
}

/// What a filled-circle scan leaves at one pixel: painted at depth zero
/// where the pixel is inside the circle and was not already in front,
/// untouched everywhere else.
pub open spec fn filled_pix_ok(
    fb0: Framebuffer,
    fbn: Framebuffer,
    cx: int,
    cy: int,
    r: int,
    color: u32,
    xx: int,
    yy: int,
) -> bool {
    let idx = yy * fb0.width + xx;
    if in_circle(cx, cy, r, xx, yy) && fb0.depth_buffer@[idx] > 0 {
        fbn.color_buffer@[idx] == color && fbn.depth_buffer@[idx] == 0
    } else {
        same_pix(fb0, fbn, idx)
    }
}

/// The smaller of two values.
pub open spec fn min2(a: int, b: int) -> int {
    if a < b {
        a
    } else {
        b
    }
}

/// The least of three screen coordinates, as the nested comparisons
/// compute it.
pub open spec fn min3(a: int, b: int, c: int) -> int {
    if b < a {
        if c < b {
            c
        } else {
            b
        }
    } else {
        if c < a {
            c
        } else {
            a
        }
    }
}

/// The greatest of three screen coordinates.
pub open spec fn max3(a: int, b: int, c: int) -> int {
    if b > a {
        if c > b {
            c
        } else {
            b
        }
    } else {
        if c > a {
            c
        } else {
            a
        }
    }
}

/// The signed area cross term of a point against a directed edge.
pub open spec fn tri_sign(px: int, py: int, ax: int, ay: int, bx: int, by: int) -> int {
    (px - bx) * (ay - by) - (ax - bx) * (py - by)
}

/// The half-plane test: a point is inside when the three edge signs are
/// not a strict mix of positive and negative, edges counting as inside.
pub open spec fn in_tri(px: int, py: int, a: Vec2, b: Vec2, c: Vec2) -> bool {
    let d1 = tri_sign(px, py, a.x as int, a.y as int, b.x as int, b.y as int);
    let d2 = tri_sign(px, py, b.x as int, b.y as int, c.x as int, c.y as int);
    let d3 = tri_sign(px, py, c.x as int, c.y as int, a.x as int, a.y as int);
    !((d1 < 0 || d2 < 0 || d3 < 0) && (d1 > 0 || d2 > 0 || d3 > 0))
}

/// The clamped bounding-box columns and rows of a screen triangle.
pub open spec fn tri_bx0(w: int, a: Vec2, b: Vec2, c: Vec2) -> int {
    min2(px_floor(min3(a.x as int, b.x as int, c.x as int)), w)
}

pub open spec fn tri_bx1(w: int, a: Vec2, b: Vec2, c: Vec2) -> int {
    min2(px_floor(max3(a.x as int, b.x as int, c.x as int)) + 1, w)
}

pub open spec fn tri_by0(h: int, a: Vec2, b: Vec2, c: Vec2) -> int {
    min2(px_floor(min3(a.y as int, b.y as int, c.y as int)), h)
}

pub open spec fn tri_by1(h: int, a: Vec2, b: Vec2, c: Vec2) -> int {
    min2(px_floor(max3(a.y as int, b.y as int, c.y as int)) + 1, h)
}

/// What a triangle fill leaves at one pixel: painted at depth zero
/// where the pixel lies in the clamped box, passes the half-plane test
/// and was not already in front; untouched everywhere else.
pub open spec fn tri_pix_ok(
    fb0: Framebuffer,
    fbn: Framebuffer,
    a: Vec2,
    b: Vec2,
    c: Vec2,
    color: u32,
    xx: int,
    yy: int,
) -> bool {
    let w = fb0.width as int;
    let h = fb0.height as int;
    let idx = yy * w + xx;
    if tri_bx0(w, a, b, c) <= xx < tri_bx1(w, a, b, c) && tri_by0(h, a, b, c) <= yy < tri_by1(
        h,
        a,
        b,
        c,
    ) && in_tri(xx * 65536, yy * 65536, a, b, c) && fb0.depth_buffer@[idx] > 0 {
        fbn.color_buffer@[idx] == color && fbn.depth_buffer@[idx] == 0
    } else {
        same_pix(fb0, fbn, idx)
    }
}

/// The fixed-view screen projection of the triangle path: a scale of
/// about 2.414 (the inverse tangent of half of 45 degrees), a divide by
/// depth, and a shift into the viewport.
pub open spec fn proj_x_spec(w: int, p: Vec3) -> int {
    if p.z <= 0 {
        0int
    } else {
        fxm(fxd(fxm(p.x as int, 158218), p.z as int), w * 32768) + w * 32768
    }
}

pub open spec fn proj_y_spec(h: int, p: Vec3) -> int {
    if p.z <= 0 {
        0int
    } else {
        fxm(-fxd(fxm(p.y as int, 158218), p.z as int), h * 32768) + h * 32768
    }
}

/// One walk point lands on the pixel it rounds to, if that pixel was
/// not already in front.
pub open spec fn plotted_pix_ok(
    fb0: Framebuffer,
    fbn: Framebuffer,
    color: u32,
    pt: (int, int),
) -> bool {
    let xi = px_round(pt.0);
    let yi = px_round(pt.1);
    let idx = yi * fb0.width + xi;
    (xi < fb0.width && yi < fb0.height && fb0.depth_buffer@[idx] > 0)
        ==> fbn.color_buffer@[idx] == color && fbn.depth_buffer@[idx] == 0
}

/// Whether a walk point rounds to this pixel.
pub open spec fn hits(pt: (int, int), xi: int, yi: int) -> bool {
    px_round(pt.0) == xi && px_round(pt.1) == yi
}

/// Whether any point of a walk rounds to this pixel.
pub open spec fn pixel_hit(pts: Seq<(int, int)>, xi: int, yi: int) -> bool {
    exists|k: int| 0 <= k < pts.len() && hits(#[trigger] pts[k], xi, yi)
}

/// Pixels that no walk point rounds to are left exactly as they were.
pub open spec fn untouched_off_walk(
    fb0: Framebuffer,
    fbn: Framebuffer,
    pts: Seq<(int, int)>,
) -> bool {
    forall|xi: int, yi: int|
        0 <= xi < fb0.width && 0 <= yi < fb0.height && !(#[trigger] pixel_hit(pts, xi, yi))
            ==> same_pix(fb0, fbn, yi * fb0.width + xi)
}

/// Pixels already at depth zero or nearer are never overwritten by a
/// depth-zero walk.
pub open spec fn front_pixels_kept(fb0: Framebuffer, fbn: Framebuffer) -> bool {
    forall|xi: int, yi: int|
        0 <= xi < fb0.width && 0 <= yi < fb0.height && fb0.depth_buffer@[yi * fb0.width + xi]
            <= 0 ==> #[trigger] same_pix(fb0, fbn, yi * fb0.width + xi)
}

/// A hit on a concatenation is a hit on one of the parts.
pub proof fn lemma_hit_concat(a: Seq<(int, int)>, b: Seq<(int, int)>, xi: int, yi: int)
    ensures
        pixel_hit(a + b, xi, yi) == (pixel_hit(a, xi, yi) || pixel_hit(b, xi, yi)),
{
    if pixel_hit(a + b, xi, yi) {
        let k = choose|k: int| 0 <= k < (a + b).len() && hits(#[trigger] (a + b)[k], xi, yi);
        if k < a.len() {
            assert(hits(a[k], xi, yi));
        } else {
            assert(hits(b[k - a.len()], xi, yi));
        }
    }
    if pixel_hit(a, xi, yi) {
        let k = choose|k: int| 0 <= k < a.len() && hits(#[trigger] a[k], xi, yi);
        assert(hits((a + b)[k], xi, yi));
    }
    if pixel_hit(b, xi, yi) {
        let k = choose|k: int| 0 <= k < b.len() && hits(#[trigger] b[k], xi, yi);
        assert(hits((a + b)[a.len() + k], xi, yi));
    }
}

/// The points of the midpoint circle walk: from each state, the eight
/// symmetric offsets of the current step around the center, then the
/// next state by the decision variable, until the octant is done.
pub open spec fn midpoint_points(cx: int, cy: int, x: int, y: int, d: int) -> Seq<(int, int)>
    decreases x - y + 131072,
{
    if x >= y {
        let here = seq![
            (cx + x, cy + y),
            (cx - x, cy + y),
            (cx + x, cy - y),
            (cx - x, cy - y),
            (cx + y, cy + x),
            (cx - y, cy + x),
            (cx + y, cy - x),
            (cx - y, cy - x),
        ];
        if d < 0 {
            here + midpoint_points(cx, cy, x, y + 65536, d + 4 * y + 6 * 65536)
        } else {
            here + midpoint_points(cx, cy, x - 65536, y + 65536, d + 4 * (y - x) + 10 * 65536)
        }
    } else {
        Seq::empty()
    }
}

/// The points of the error-stepped line walk from `(x, y)` toward
/// `(p2x, p2y)`: each state plots its point, stops within one pixel of
/// the target or when the step budget runs out, and otherwise steps
/// along one or both axes by whole pixels as the error term directs.
pub open spec fn bres_points(
    p2x: int,
    p2y: int,
    dx: int,
    dy: int,
    sx: int,
    sy: int,
    x: int,
    y: int,
    err: int,
    fuel: int,
) -> Seq<(int, int)>
    decreases fuel,
{
    if fuel <= 0 {
        Seq::empty()
    } else {
        let here = seq![(x, y)];
        if fx_abs(x - p2x) < 65536 && fx_abs(y - p2y) < 65536 {
            here
        } else {
            let x2 = if err > -dx {
                x + sx
            } else {
                x
            };
            let e2 = if err > -dx {
                err - dy
            } else {
                err
            };
            let y2 = if err < dy {
                y + sy
            } else {
                y
            };
            let e3 = if err < dy {
                e2 + dx
            } else {
                e2
            };
            here + bres_points(p2x, p2y, dx, dy, sx, sy, x2, y2, e3, fuel - 1)
        }
    }
}

/// Every point of the midpoint walk lies within Chebyshev distance
/// `x` of the center: the walk starts each octant step at offsets
/// `(x, y)` with `y` at most `x`, and `x` never grows.  With the walk
/// started at `x == radius`, every plotted point — and so, through
/// `untouched_off_walk`, every modified pixel — stays within the
/// radius.
pub proof fn lemma_midpoint_in_box(cx: int, cy: int, x: int, y: int, d: int, k: int)
    requires
        0 <= y,
        0 <= k < midpoint_points(cx, cy, x, y, d).len(),
    ensures
        fx_abs(midpoint_points(cx, cy, x, y, d)[k].0 - cx) <= x,
        fx_abs(midpoint_points(cx, cy, x, y, d)[k].1 - cy) <= x,
    decreases x - y + 131072,
{
    let pts = midpoint_points(cx, cy, x, y, d);
    assert(x >= y);
    let here = seq![
        (cx + x, cy + y),
        (cx - x, cy + y),
        (cx + x, cy - y),
        (cx - x, cy - y),
        (cx + y, cy + x),
        (cx - y, cy + x),
        (cx + y, cy - x),
        (cx - y, cy - x),
    ];
    if k < 8 {
        assert(pts[k] == here[k]);
    } else {
        if d < 0 {
            let rest = midpoint_points(cx, cy, x, y + 65536, d + 4 * y + 6 * 65536);
            assert(pts[k] == rest[k - 8]);
            lemma_midpoint_in_box(cx, cy, x, y + 65536, d + 4 * y + 6 * 65536, k - 8);
        } else {
            let rest = midpoint_points(
                cx,
                cy,
                x - 65536,
                y + 65536,
                d + 4 * (y - x) + 10 * 65536,
            );
            assert(pts[k] == rest[k - 8]);
            lemma_midpoint_in_box(
                cx,
                cy,
                x - 65536,
                y + 65536,
                d + 4 * (y - x) + 10 * 65536,
                k - 8,
            );
        }
    }
}

/// The software rasterizer: owns the framebuffer it draws into.
#[derive(Debug)]
pub struct SoftwareRenderer {
    pub framebuffer: Framebuffer,
}

impl SoftwareRenderer {
    /// A renderer over the fixed demo resolution.
    pub fn new() -> (r: SoftwareRenderer)
        ensures
            fb_wf(r.framebuffer),
            r.framebuffer.width == 1280,
            r.framebuffer.height == 720,
            forall|i: int|
                0 <= i < r.framebuffer.color_buffer@.len() ==> #[trigger] r
                    .framebuffer
                    .color_buffer@[i] == 0,
            forall|i: int|
                0 <= i < r.framebuffer.depth_buffer@.len() ==> #[trigger] r
                    .framebuffer
                    .depth_buffer@[i] == DEPTH_FAR,
    {
        SoftwareRenderer { framebuffer: Framebuffer::new(1280, 720) }
    }

    /// Clears the owned framebuffer.
    pub fn clear(&mut self, color: u32)
        requires
            fb_wf(old(self).framebuffer),
        ensures
            fb_wf(final(self).framebuffer),
            final(self).framebuffer.width == old(self).framebuffer.width,
            final(self).framebuffer.height == old(self).framebuffer.height,
            forall|i: int|
                0 <= i < final(self).framebuffer.color_buffer@.len()
                    ==> #[trigger] final(self).framebuffer.color_buffer@[i] == color,
            forall|i: int|
                0 <= i < final(self).framebuffer.depth_buffer@.len()
                    ==> #[trigger] final(self).framebuffer.depth_buffer@[i] == DEPTH_FAR,
    {
        self.framebuffer.clear(color);
    }

    /// Plots one rounded point in front of everything, dropping it if
    /// off screen.  The contract is exact: the one rounded, in-bounds
    /// pixel that was not already in front is overwritten with this
    /// color at depth zero, and nothing else moves.
    fn draw_circle_point(&mut self, x: i64, y: i64, color: u32)
        requires
            fb_wf(old(self).framebuffer),
            -0x8000_0000_0000 <= x <= 0x8000_0000_0000,
            -0x8000_0000_0000 <= y <= 0x8000_0000_0000,
        ensures
            fb_wf(final(self).framebuffer),
            painted_over(old(self).framebuffer, final(self).framebuffer, color),
            ({
                let fb0 = old(self).framebuffer;
                let xi = px_round(x as int);
                let yi = px_round(y as int);
                let idx = yi * fb0.width + xi;
                if xi < fb0.width && yi < fb0.height && fb0.depth_buffer@[idx] > 0 {
                    final(self).framebuffer.color_buffer@ == fb0.color_buffer@.update(idx, color)
                        && final(self).framebuffer.depth_buffer@ == fb0.depth_buffer@.update(
                        idx,
                        0i64,
                    )
                } else {
                    final(self).framebuffer.color_buffer@ == fb0.color_buffer@ && final(
                    self).framebuffer.depth_buffer@ == fb0.depth_buffer@
                }
            }),
    {
        let xi: i64 = if x < 0 {
            0
        } else {
            proof {
                crate::fx::lemma_div_mag_pos(x as int + 32768, 65536);
                vstd::arithmetic::div_mod::lemma_div_pos_is_pos(x as int + 32768, 65536);
            }
            (x + 32768).checked_div_euclid(65536).unwrap()
        };
        let yi: i64 = if y < 0 {
            0
        } else {
            proof {
                crate::fx::lemma_div_mag_pos(y as int + 32768, 65536);
                vstd::arithmetic::div_mod::lemma_div_pos_is_pos(y as int + 32768, 65536);
            }
            (y + 32768).checked_div_euclid(65536).unwrap()
        };
        proof {
            assert(xi == px_round(x as int));
            assert(yi == px_round(y as int));
            assert(0 <= xi && 0 <= yi);
        }
        let ghost pre = self.framebuffer;
        if xi < self.framebuffer.width as i64 && yi < self.framebuffer.height as i64 {
            proof {
                lemma_pix_in_range(self.framebuffer, xi as int, yi as int);
            }
            self.framebuffer.set_pixel(xi as usize, yi as usize, color, 0);
            proof {
                let idx = pix(pre, xi as int, yi as int);
                if 0 < pre.depth_buffer@[idx] {
                    lemma_painted_update(pre, self.framebuffer, idx, color);
                } else {
                    lemma_painted_refl(pre, color);
                }
            }
        }
    }


    /// One tracked step of a point walk: plots the point and carries
    /// the walk bookkeeping — every recorded point holds its pixel,
    /// unvisited pixels are untouched, and pixels already in front are
    /// kept.
    fn plot_tracked(
        &mut self,
        x: i64,
        y: i64,
        color: u32,
        Ghost(fb0): Ghost<Framebuffer>,
        Ghost(done): Ghost<Seq<(int, int)>>,
    )
        requires
            fb_wf(old(self).framebuffer),
            fb_wf(fb0),
            -0x8000_0000_0000 <= x <= 0x8000_0000_0000,
            -0x8000_0000_0000 <= y <= 0x8000_0000_0000,
            painted_over(fb0, old(self).framebuffer, color),
            forall|k: int|
                0 <= k < done.len() ==> plotted_pix_ok(
                    fb0,
                    old(self).framebuffer,
                    color,
                    #[trigger] done[k],
                ),
            untouched_off_walk(fb0, old(self).framebuffer, done),
            front_pixels_kept(fb0, old(self).framebuffer),
        ensures
            fb_wf(final(self).framebuffer),
            painted_over(fb0, final(self).framebuffer, color),
            forall|k: int|
                0 <= k < done.len() + 1 ==> plotted_pix_ok(
                    fb0,
                    final(self).framebuffer,
                    color,
                    #[trigger] (done + seq![(x as int, y as int)])[k],
                ),
            untouched_off_walk(fb0, final(self).framebuffer, done + seq![(x as int, y as int)]),
            front_pixels_kept(fb0, final(self).framebuffer),
    {
        let ghost pre = self.framebuffer;
        self.draw_circle_point(x, y, color);
        proof {
            lemma_painted_trans(fb0, pre, self.framebuffer, color);
            let pt = (x as int, y as int);
            let xi0 = px_round(x as int);
            let yi0 = px_round(y as int);
            let idx0 = yi0 * fb0.width + xi0;
            let w = fb0.width as int;
            let h = fb0.height as int;
            if xi0 < w && yi0 < h {
                lemma_pix_in_range(fb0, xi0, yi0);
            }
            // The freshly plotted point holds its pixel.
            if xi0 < w && yi0 < h && fb0.depth_buffer@[idx0] > 0 {
                assert(painted_over(fb0, pre, color));
                assert((pre.color_buffer@[idx0] == fb0.color_buffer@[idx0]
                    && pre.depth_buffer@[idx0] == fb0.depth_buffer@[idx0]) || (
                pre.color_buffer@[idx0] == color && pre.depth_buffer@[idx0] == 0));
                if pre.depth_buffer@[idx0] > 0 {
                } else {
                    assert(pre.color_buffer@[idx0] == color && pre.depth_buffer@[idx0] == 0);
                }
                assert(plotted_pix_ok(fb0, self.framebuffer, color, pt));
            }
            // Previously recorded points keep their pixels.
            assert forall|k: int| 0 <= k < done.len() implies plotted_pix_ok(
                fb0,
                self.framebuffer,
                color,
                #[trigger] done[k],
            ) by {
                assert(plotted_pix_ok(fb0, pre, color, done[k]));
                let xi = px_round(done[k].0);
                let yi = px_round(done[k].1);
                if xi < w && yi < h && fb0.depth_buffer@[yi * fb0.width + xi] > 0 {
                    lemma_pix_in_range(fb0, xi, yi);
                    if yi * fb0.width + xi == idx0 {
                    }
                }
            }
            assert forall|k: int| 0 <= k < done.len() + 1 implies plotted_pix_ok(
                fb0,
                self.framebuffer,
                color,
                #[trigger] (done + seq![pt])[k],
            ) by {
                if k < done.len() {
                    assert((done + seq![pt])[k] == done[k]);
                } else {
                    assert((done + seq![pt])[k] == pt);
                }
            }
            // Unvisited pixels stay untouched.
            assert forall|xi: int, yi: int|
                0 <= xi < fb0.width && 0 <= yi < fb0.height && !(#[trigger] pixel_hit(
                    done + seq![pt],
                    xi,
                    yi,
                )) implies same_pix(fb0, self.framebuffer, yi * fb0.width + xi) by {
                lemma_hit_concat(done, seq![pt], xi, yi);
                assert(!pixel_hit(done, xi, yi));
                assert(same_pix(fb0, pre, yi * fb0.width + xi));
                assert(seq![pt][0] == pt);
                if hits(pt, xi, yi) {
                    assert(pixel_hit(seq![pt], xi, yi));
                }
                lemma_pix_in_range(fb0, xi, yi);
                if xi0 < w && yi0 < h {
                    if yi * fb0.width + xi == idx0 {
                        lemma_pix_injective(xi, yi, xi0, yi0, w);
                    }
                }
            }
            // Pixels already in front are kept.
            assert forall|xi: int, yi: int|
                0 <= xi < fb0.width && 0 <= yi < fb0.height && fb0.depth_buffer@[yi * fb0.width
                    + xi] <= 0 implies #[trigger] same_pix(
                    fb0,
                    self.framebuffer,
                    yi * fb0.width + xi,
                ) by {
                assert(same_pix(fb0, pre, yi * fb0.width + xi));
                lemma_pix_in_range(fb0, xi, yi);
                if xi0 < w && yi0 < h {
                    if yi * fb0.width + xi == idx0 {
                        lemma_pix_injective(xi, yi, xi0, yi0, w);
                        assert(pre.depth_buffer@[idx0] <= 0);
                    }
                }
            }
        }
    }

    /// Draws a line between two screen points by stepping whole pixels
    /// and tracking the axis error, always in front of prior drawing,
    /// under a step budget proportional to the span.  The contract
    /// fixes the pixel set exactly: the walk's points are
    /// `bres_points` from the first endpoint; each of their rounded
    /// on-screen pixels that was not already in front holds the color
    /// at depth zero, every pixel off the walk is untouched, and
    /// pixels already in front are kept.
    pub fn draw_line(&mut self, p1: Vec2, p2: Vec2, color: u32)
        requires
            fb_wf(old(self).framebuffer),
            -0x100_0000_0000 <= p1.x <= 0x100_0000_0000,
            -0x100_0000_0000 <= p1.y <= 0x100_0000_0000,
            -0x100_0000_0000 <= p2.x <= 0x100_0000_0000,
            -0x100_0000_0000 <= p2.y <= 0x100_0000_0000,
        ensures
            fb_wf(final(self).framebuffer),
            painted_over(old(self).framebuffer, final(self).framebuffer, color),
            ({
                let dx = fx_abs(p2.x - p1.x);
                let dy = fx_abs(p2.y - p1.y);
                let sx: int = if p2.x > p1.x {
                    65536int
                } else {
                    -65536int
                };
                let sy: int = if p2.y > p1.y {
                    65536int
                } else {
                    -65536int
                };
                let err0 = (if dx > dy {
                    dx
                } else {
                    -dy
                }) / 2;
                let fuel0 = (dx + dy) / 65536 + 4;
                let pts = bres_points(
                    p2.x as int,
                    p2.y as int,
                    dx,
                    dy,
                    sx,
                    sy,
                    p1.x as int,
                    p1.y as int,
                    err0,
                    fuel0,
                );
                (forall|k: int|
                    0 <= k < pts.len() ==> plotted_pix_ok(
                        old(self).framebuffer,
                        final(self).framebuffer,
                        color,
                        #[trigger] pts[k],
                    )) && untouched_off_walk(old(self).framebuffer, final(self).framebuffer, pts)
                    && front_pixels_kept(old(self).framebuffer, final(self).framebuffer)
                    && plotted_pix_ok(
                    old(self).framebuffer,
                    final(self).framebuffer,
                    color,
                    (p1.x as int, p1.y as int),
                )
            }),
    {
        let ghost fb0 = self.framebuffer;
        let dx: i64 = if p2.x > p1.x {
            p2.x - p1.x
        } else {
            p1.x - p2.x
        };
        let dy: i64 = if p2.y > p1.y {
            p2.y - p1.y
        } else {
            p1.y - p2.y
        };
        let sx: i64 = if p2.x > p1.x {
            65536
        } else {
            -65536
        };
        let sy: i64 = if p2.y > p1.y {
            65536
        } else {
            -65536
        };
        let mut err: i64 = (if dx > dy {
            dx
        } else {
            -dy
        }).checked_div_euclid(2).unwrap();
        proof {
            crate::fx::lemma_div_mag_pos(dx as int, 2);
            crate::fx::lemma_div_mag_pos(-(dy as int), 2);
        }
        let mut x = p1.x;
        let mut y = p1.y;
        let mut fuel: i64 = (dx + dy).checked_div_euclid(65536).unwrap() + 4;
        proof {
            crate::fx::lemma_div_mag_pos(dx as int + dy as int, 65536);
            vstd::arithmetic::div_mod::lemma_div_pos_is_pos(dx as int + dy as int, 65536);
        }
        let ghost fuel0 = fuel;
        let ghost pts = bres_points(
            p2.x as int,
            p2.y as int,
            dx as int,
            dy as int,
            sx as int,
            sy as int,
            p1.x as int,
            p1.y as int,
            err as int,
            fuel as int,
        );
        let ghost mut done: Seq<(int, int)> = Seq::empty();
        proof {
            lemma_painted_refl(fb0, color);
            assert(done + bres_points(
                p2.x as int,
                p2.y as int,
                dx as int,
                dy as int,
                sx as int,
                sy as int,
                x as int,
                y as int,
                err as int,
                fuel as int,
            ) =~= pts);
        }
        let mut reached: bool = false;
        while fuel > 0 && !reached
            invariant
                fb_wf(self.framebuffer),
                fb_wf(fb0),
                painted_over(fb0, self.framebuffer, color),
                0 <= dx <= 0x200_0000_0000,
                0 <= dy <= 0x200_0000_0000,
                sx == 65536 || sx == -65536,
                sy == 65536 || sy == -65536,
                0 <= fuel <= fuel0,
                4 <= fuel0 <= 0x800_0000 + 4,
                -(dx + dy) - 65536 <= err <= dx + dy + 65536,
                fx_abs(x as int - p1.x as int) <= (fuel0 - fuel) * 65536,
                fx_abs(y as int - p1.y as int) <= (fuel0 - fuel) * 65536,
                -0x100_0000_0000 <= p1.x <= 0x100_0000_0000,
                -0x100_0000_0000 <= p1.y <= 0x100_0000_0000,
                -0x100_0000_0000 <= p2.x <= 0x100_0000_0000,
                -0x100_0000_0000 <= p2.y <= 0x100_0000_0000,
                !reached ==> done + bres_points(
                    p2.x as int,
                    p2.y as int,
                    dx as int,
                    dy as int,
                    sx as int,
                    sy as int,
                    x as int,
                    y as int,
                    err as int,
                    fuel as int,
                ) == pts,
                reached ==> done == pts,
                forall|j: int|
                    0 <= j < done.len() ==> plotted_pix_ok(
                        fb0,
                        self.framebuffer,
                        color,
                        #[trigger] done[j],
                    ),
                untouched_off_walk(fb0, self.framebuffer, done),
                front_pixels_kept(fb0, self.framebuffer),
            decreases (if reached {
                0int
            } else {
                fuel as int + 1
            }),
        {
            let ghost suffix = bres_points(
                p2.x as int,
                p2.y as int,
                dx as int,
                dy as int,
                sx as int,
                sy as int,
                x as int,
                y as int,
                err as int,
                fuel as int,
            );
            proof {
                assert(fx_abs(x as int - p1.x as int) <= 0x1000_0000_0000) by (nonlinear_arith)
                    requires
                        fx_abs(x as int - p1.x as int) <= (fuel0 - fuel) * 65536,
                        0 <= fuel0 - fuel <= 0x800_0000 + 4,
                ;
                assert(fx_abs(y as int - p1.y as int) <= 0x1000_0000_0000) by (nonlinear_arith)
                    requires
                        fx_abs(y as int - p1.y as int) <= (fuel0 - fuel) * 65536,
                        0 <= fuel0 - fuel <= 0x800_0000 + 4,
                ;
            }
            let ghost xs = x as int;
            let ghost ys = y as int;
            self.plot_tracked(x, y, color, Ghost(fb0), Ghost(done));
            proof {
                done = done + seq![(xs, ys)];
            }
            let ex: i64 = if x > p2.x {
                x - p2.x
            } else {
                p2.x - x
            };
            let ey: i64 = if y > p2.y {
                y - p2.y
            } else {
                p2.y - y
            };
            if ex < 65536 && ey < 65536 {
                reached = true;
                proof {
                    assert(suffix =~= seq![(xs, ys)]);
                    assert(done =~= pts);
                }
            } else {
                let e2 = err;
                if e2 > -dx {
                    err = err - dy;
                    x = x + sx;
                }
                if e2 < dy {
                    err = err + dx;
                    y = y + sy;
                }
                fuel = fuel - 1;
                proof {
                    let next = bres_points(
                        p2.x as int,
                        p2.y as int,
                        dx as int,
                        dy as int,
                        sx as int,
                        sy as int,
                        x as int,
                        y as int,
                        err as int,
                        fuel as int,
                    );
                    assert(suffix == seq![(xs, ys)] + next);
                    assert(done + next =~= pts);
                }
            }
        }
        proof {
            if !reached {
                assert(bres_points(
                    p2.x as int,
                    p2.y as int,
                    dx as int,
                    dy as int,
                    sx as int,
                    sy as int,
                    x as int,
                    y as int,
                    err as int,
                    fuel as int,
                ) =~= Seq::<(int, int)>::empty());
                assert(done + Seq::<(int, int)>::empty() =~= done);
            }
            assert(done == pts);
            assert(pts.len() >= 1 && pts[0] == (p1.x as int, p1.y as int));
        }
    }

    /// Draws a circle outline with the integer midpoint walk, plotting
    /// the eight symmetric points of each step in front of everything.
    /// The contract fixes the pixel set exactly: the walk's points are
    /// `midpoint_points`; each of their rounded on-screen pixels that
    /// was not already in front holds the color at depth zero, every
    /// pixel off the walk is untouched, and pixels already in front
    /// are kept.
    pub fn draw_circle(&mut self, center: Vec2, radius: i64, color: u32)
        requires
            fb_wf(old(self).framebuffer),
            -0x4000_0000 <= center.x <= 0x4000_0000,
            -0x4000_0000 <= center.y <= 0x4000_0000,
            -0x4000_0000 <= radius <= 0x4000_0000,
        ensures
            fb_wf(final(self).framebuffer),
            painted_over(old(self).framebuffer, final(self).framebuffer, color),
            ({
                let pts = midpoint_points(
                    center.x as int,
                    center.y as int,
                    radius as int,
                    0,
                    3 * 65536 - 2 * radius,
                );
                (forall|k: int|
                    0 <= k < pts.len() ==> plotted_pix_ok(
                        old(self).framebuffer,
                        final(self).framebuffer,
                        color,
                        #[trigger] pts[k],
                    )) && untouched_off_walk(old(self).framebuffer, final(self).framebuffer, pts)
                    && front_pixels_kept(old(self).framebuffer, final(self).framebuffer)
            }),
    {
        let ghost fb0 = self.framebuffer;
        let mut x: i64 = radius;
        let mut y: i64 = 0;
        let mut decision: i64 = 3 * 65536 - 2 * radius;
        let ghost pts = midpoint_points(
            center.x as int,
            center.y as int,
            radius as int,
            0,
            3 * 65536 - 2 * radius,
        );
        let ghost mut done: Seq<(int, int)> = Seq::empty();
        let ghost mut k: int = 0;
        proof {
            lemma_painted_refl(fb0, color);
            assert(done + midpoint_points(
                center.x as int,
                center.y as int,
                x as int,
                y as int,
                decision as int,
            ) =~= pts);
        }
        while x >= y
            invariant
                fb_wf(self.framebuffer),
                fb_wf(fb0),
                painted_over(fb0, self.framebuffer, color),
                -0x4000_0000 <= center.x <= 0x4000_0000,
                -0x4000_0000 <= center.y <= 0x4000_0000,
                -0x4000_0000 <= radius <= 0x4000_0000,
                y == k * 65536,
                0 <= k <= 0x4001,
                0 <= y <= fx_abs(radius as int) + 65536,
                -0x4000_0000 - 65536 <= x <= radius,
                fx_abs(decision as int) <= 3 * 65536 + 2 * fx_abs(radius as int) + k * (4
                    * fx_abs(radius as int) + 16 * 65536),
                done + midpoint_points(
                    center.x as int,
                    center.y as int,
                    x as int,
                    y as int,
                    decision as int,
                ) == pts,
                forall|j: int|
                    0 <= j < done.len() ==> plotted_pix_ok(
                        fb0,
                        self.framebuffer,
                        color,
                        #[trigger] done[j],
                    ),
                untouched_off_walk(fb0, self.framebuffer, done),
                front_pixels_kept(fb0, self.framebuffer),
            decreases x - y + 131072,
        {
            let ghost suffix = midpoint_points(
                center.x as int,
                center.y as int,
                x as int,
                y as int,
                decision as int,
            );
            let ghost here = seq![
                ((center.x + x) as int, (center.y + y) as int),
                ((center.x - x) as int, (center.y + y) as int),
                ((center.x + x) as int, (center.y - y) as int),
                ((center.x - x) as int, (center.y - y) as int),
                ((center.x + y) as int, (center.y + x) as int),
                ((center.x - y) as int, (center.y + x) as int),
                ((center.x + y) as int, (center.y - x) as int),
                ((center.x - y) as int, (center.y - x) as int),
            ];
            self.plot_tracked(center.x + x, center.y + y, color, Ghost(fb0), Ghost(done));
            proof {
                done = done + seq![((center.x + x) as int, (center.y + y) as int)];
            }
            self.plot_tracked(center.x - x, center.y + y, color, Ghost(fb0), Ghost(done));
            proof {
                done = done + seq![((center.x - x) as int, (center.y + y) as int)];
            }
            self.plot_tracked(center.x + x, center.y - y, color, Ghost(fb0), Ghost(done));
            proof {
                done = done + seq![((center.x + x) as int, (center.y - y) as int)];
            }
            self.plot_tracked(center.x - x, center.y - y, color, Ghost(fb0), Ghost(done));
            proof {
                done = done + seq![((center.x - x) as int, (center.y - y) as int)];
            }
            self.plot_tracked(center.x + y, center.y + x, color, Ghost(fb0), Ghost(done));
            proof {
                done = done + seq![((center.x + y) as int, (center.y + x) as int)];
            }
            self.plot_tracked(center.x - y, center.y + x, color, Ghost(fb0), Ghost(done));
            proof {
                done = done + seq![((center.x - y) as int, (center.y + x) as int)];
            }
            self.plot_tracked(center.x + y, center.y - x, color, Ghost(fb0), Ghost(done));
            proof {
                done = done + seq![((center.x + y) as int, (center.y - x) as int)];
            }
            self.plot_tracked(center.x - y, center.y - x, color, Ghost(fb0), Ghost(done));
            proof {
                done = done + seq![((center.x - y) as int, (center.y - x) as int)];
            }
            proof {
                assert(fx_abs(decision as int) <= 0x8000_0000_0000) by (nonlinear_arith)
                    requires
                        fx_abs(decision as int) <= 3 * 65536 + 2 * fx_abs(radius as int) + k * (4
                            * fx_abs(radius as int) + 16 * 65536),
                        0 <= k <= 0x4001,
                        0 <= fx_abs(radius as int) <= 0x4000_0000,
                ;
                assert((k + 1) * (4 * fx_abs(radius as int) + 16 * 65536) == k * (4 * fx_abs(
                    radius as int,
                ) + 16 * 65536) + (4 * fx_abs(radius as int) + 16 * 65536)) by (nonlinear_arith);
                assert(k + 1 <= 0x4001) by (nonlinear_arith)
                    requires
                        y == k * 65536,
                        y <= x,
                        x <= 0x4000_0000,
                        0 <= k,
                ;
            }
            let ghost done_before = done;
            if decision < 0 {
                decision = decision + 4 * y + 6 * 65536;
            } else {
                decision = decision + 4 * (y - x) + 10 * 65536;
                x = x - 65536;
            }
            y = y + 65536;
            proof {
                k = k + 1;
                let next = midpoint_points(
                    center.x as int,
                    center.y as int,
                    x as int,
                    y as int,
                    decision as int,
                );
                assert(suffix == here + next);
                assert(done_before + next =~= pts);
            }
        }
        proof {
            assert(midpoint_points(
                center.x as int,
                center.y as int,
                x as int,
                y as int,
                decision as int,
            ) =~= Seq::<(int, int)>::empty());
            assert(done + Seq::<(int, int)>::empty() =~= done);
            assert(done == pts);
        }
    }

    /// Fills every pixel within Euclidean distance `radius` of the
    /// center, scanning the whole buffer, in front of everything.
    pub fn draw_filled_circle(&mut self, center: Vec2, radius: i64, color: u32)
        requires
            fb_wf(old(self).framebuffer),
            -0x4000_0000 <= center.x <= 0x4000_0000,
            -0x4000_0000 <= center.y <= 0x4000_0000,
            -0x4000_0000 <= radius <= 0x4000_0000,
        ensures
            fb_wf(final(self).framebuffer),
            final(self).framebuffer.width == old(self).framebuffer.width,
            final(self).framebuffer.height == old(self).framebuffer.height,
            forall|xx: int, yy: int|
                0 <= xx < old(self).framebuffer.width && 0 <= yy < old(self).framebuffer.height
                    ==> #[trigger] filled_pix_ok(
                    old(self).framebuffer,
                    final(self).framebuffer,
                    center.x as int,
                    center.y as int,
                    radius as int,
                    color,
                    xx,
                    yy,
                ),
    {
        let ghost fb0 = self.framebuffer;
        let w = self.framebuffer.width;
        let h = self.framebuffer.height;
        let mut y: usize = 0;
        while y < h
            invariant
                fb_wf(self.framebuffer),
                self.framebuffer.width == w,
                self.framebuffer.height == h,
                fb0.width == w,
                fb0.height == h,
                fb0.color_buffer@.len() == self.framebuffer.color_buffer@.len(),
                fb0.depth_buffer@.len() == self.framebuffer.depth_buffer@.len(),
                y <= h,
                -0x4000_0000 <= center.x <= 0x4000_0000,
                -0x4000_0000 <= center.y <= 0x4000_0000,
                -0x4000_0000 <= radius <= 0x4000_0000,
                forall|xx: int, yy: int|
                    0 <= xx < w && 0 <= yy < y ==> #[trigger] filled_pix_ok(
                        fb0,
                        self.framebuffer,
                        center.x as int,
                        center.y as int,
                        radius as int,
                        color,
                        xx,
                        yy,
                    ),
                forall|xx: int, yy: int|
                    0 <= xx < w && y <= yy < h ==> #[trigger] same_pix(
                        fb0,
                        self.framebuffer,
                        yy * w + xx,
                    ),
            decreases h - y,
        {
            let mut x: usize = 0;
            while x < w
                invariant
                    fb_wf(self.framebuffer),
                    self.framebuffer.width == w,
                    self.framebuffer.height == h,
                    fb0.width == w,
                    fb0.height == h,
                    fb0.color_buffer@.len() == self.framebuffer.color_buffer@.len(),
                    fb0.depth_buffer@.len() == self.framebuffer.depth_buffer@.len(),
                    x <= w,
                    y < h,
                    -0x4000_0000 <= center.x <= 0x4000_0000,
                    -0x4000_0000 <= center.y <= 0x4000_0000,
                    -0x4000_0000 <= radius <= 0x4000_0000,
                    forall|xx: int, yy: int|
                        0 <= xx < w && 0 <= yy < y ==> #[trigger] filled_pix_ok(
                            fb0,
                            self.framebuffer,
                            center.x as int,
                            center.y as int,
                            radius as int,
                            color,
                            xx,
                            yy,
                        ),
                    forall|xx: int|
                        0 <= xx < x ==> #[trigger] filled_pix_ok(
                            fb0,
                            self.framebuffer,
                            center.x as int,
                            center.y as int,
                            radius as int,
                            color,
                            xx,
                            y as int,
                        ),
                    forall|xx: int, yy: int|
                        0 <= xx < w && y < yy < h ==> #[trigger] same_pix(
                            fb0,
                            self.framebuffer,
                            yy * w + xx,
                        ),
                    forall|xx: int|
                        x <= xx < w ==> #[trigger] same_pix(
                            fb0,
                            self.framebuffer,
                            (y as int) * w + xx,
                        ),
                decreases w - x,
            {
                let dx: i64 = (x as i64) * 65536 - center.x;
                let dy: i64 = (y as i64) * 65536 - center.y;
                let sx2 = sq_i128(dx);
                let sy2 = sq_i128(dy);
                let dist: u64 = isqrt((sx2 + sy2) as u128);
                let ghost pre = self.framebuffer;
                proof {
                    lemma_pix_in_range(fb0, x as int, y as int);
                }
                if radius >= 0 && dist <= radius as u64 {
                    self.framebuffer.set_pixel(x, y, color, 0);
                }
                proof {
                    let idx0 = (y as int) * w + x;
                    assert(same_pix(fb0, pre, idx0));
                    assert(filled_pix_ok(fb0, self.framebuffer, center.x as int, center.y as int,
                        radius as int, color, x as int, y as int));
                    assert forall|xx: int, yy: int|
                        0 <= xx < w && 0 <= yy < y implies #[trigger] filled_pix_ok(
                            fb0, self.framebuffer, center.x as int, center.y as int,
                            radius as int, color, xx, yy,
                        ) by {
                        assert(filled_pix_ok(fb0, pre, center.x as int, center.y as int,
                            radius as int, color, xx, yy));
                        lemma_pix_in_range(fb0, xx, yy);
                        if yy * w + xx == idx0 {
                            lemma_pix_injective(xx, yy, x as int, y as int, w as int);
                        }
                    }
                    assert forall|xx: int| 0 <= xx < x implies #[trigger] filled_pix_ok(
                            fb0, self.framebuffer, center.x as int, center.y as int,
                            radius as int, color, xx, y as int,
                        ) by {
                        assert(filled_pix_ok(fb0, pre, center.x as int, center.y as int,
                            radius as int, color, xx, y as int));
                        lemma_pix_in_range(fb0, xx, y as int);
                        if (y as int) * w + xx == idx0 {
                            lemma_pix_injective(xx, y as int, x as int, y as int, w as int);
                        }
                    }
                    assert forall|xx: int, yy: int|
                        0 <= xx < w && y < yy < h implies #[trigger] same_pix(
                            fb0, self.framebuffer, yy * w + xx,
                        ) by {
                        assert(same_pix(fb0, pre, yy * w + xx));
                        lemma_pix_in_range(fb0, xx, yy);
                        if yy * w + xx == idx0 {
                            lemma_pix_injective(xx, yy, x as int, y as int, w as int);
                        }
                    }
                    assert forall|xx: int| x + 1 <= xx < w implies #[trigger] same_pix(
                            fb0, self.framebuffer, (y as int) * w + xx,
                        ) by {
                        assert(same_pix(fb0, pre, (y as int) * w + xx));
                        lemma_pix_in_range(fb0, xx, y as int);
                        if (y as int) * w + xx == idx0 {
                            lemma_pix_injective(xx, y as int, x as int, y as int, w as int);
                        }
                    }
                }
                x = x + 1;
            }
            y = y + 1;
        }
    }

    /// Projects a world point to the screen with the fixed 45 degree
    /// field of view of the triangle path; points at or behind the eye
    /// collapse to the origin.
    fn project_point(&self, point: &Vec3) -> (r: Vec2)
        requires
            fb_wf(self.framebuffer),
            point_bounded3(*point),
        ensures
            r.x == proj_x_spec(self.framebuffer.width as int, *point),
            r.y == proj_y_spec(self.framebuffer.height as int, *point),
            -0x2000_0000_0000_0000 <= r.x <= 0x2000_0000_0000_0000,
            -0x2000_0000_0000_0000 <= r.y <= 0x2000_0000_0000_0000,
    {
        if point.z <= 0 {
            return Vec2::zero();
        }
        let halfw: i64 = (self.framebuffer.width as i64) * 32768;
        let halfh: i64 = (self.framebuffer.height as i64) * 32768;
        proof {
            lemma_fxm_bound(point.x as int, 158218, 0x4000_0000, 158218);
            lemma_fxm_bound(point.y as int, 158218, 0x4000_0000, 158218);
        }
        let t1 = fx_mul(point.x, 158218);
        proof {
            lemma_fxd_bound(t1 as int, point.z as int);
        }
        let t2 = fx_div(t1, point.z);
        proof {
            lemma_fxm_bound(t2 as int, halfw as int, 0x1_0000_0000_0000, 0x1000_0000);
        }
        let t3 = fx_mul_wide(t2, halfw);
        let u1 = fx_mul(point.y, 158218);
        proof {
            lemma_fxd_bound(u1 as int, point.z as int);
        }
        let u2 = fx_div(u1, point.z);
        proof {
            lemma_fxm_bound(-(u2 as int), halfh as int, 0x1_0000_0000_0000, 0x1000_0000);
        }
        let u3 = fx_mul_wide(-u2, halfh);
        Vec2 { x: t3 + halfw, y: u3 + halfh }
    }

    /// The half-plane membership test over exact integer cross terms.
    fn is_point_in_triangle(&self, p: Vec2, a: Vec2, b: Vec2, c: Vec2) -> (r: bool)
        requires
            -0x2000_0000_0000_0000 <= p.x <= 0x2000_0000_0000_0000,
            -0x2000_0000_0000_0000 <= p.y <= 0x2000_0000_0000_0000,
            -0x2000_0000_0000_0000 <= a.x <= 0x2000_0000_0000_0000,
            -0x2000_0000_0000_0000 <= a.y <= 0x2000_0000_0000_0000,
            -0x2000_0000_0000_0000 <= b.x <= 0x2000_0000_0000_0000,
            -0x2000_0000_0000_0000 <= b.y <= 0x2000_0000_0000_0000,
            -0x2000_0000_0000_0000 <= c.x <= 0x2000_0000_0000_0000,
            -0x2000_0000_0000_0000 <= c.y <= 0x2000_0000_0000_0000,
        ensures
            r == in_tri(p.x as int, p.y as int, a, b, c),
    {
        let d1 = Self::edge_sign(p.x, p.y, a.x, a.y, b.x, b.y);
        let d2 = Self::edge_sign(p.x, p.y, b.x, b.y, c.x, c.y);
        let d3 = Self::edge_sign(p.x, p.y, c.x, c.y, a.x, a.y);
        let has_neg = (d1 < 0) || (d2 < 0) || (d3 < 0);
        let has_pos = (d1 > 0) || (d2 > 0) || (d3 > 0);
        !(has_neg && has_pos)
    }

    /// The signed area cross term of a point against one edge.
    fn edge_sign(px: i64, py: i64, ax: i64, ay: i64, bx: i64, by: i64) -> (r: i128)
        requires
            -0x2000_0000_0000_0000 <= px <= 0x2000_0000_0000_0000,
            -0x2000_0000_0000_0000 <= py <= 0x2000_0000_0000_0000,
            -0x2000_0000_0000_0000 <= ax <= 0x2000_0000_0000_0000,
            -0x2000_0000_0000_0000 <= ay <= 0x2000_0000_0000_0000,
            -0x2000_0000_0000_0000 <= bx <= 0x2000_0000_0000_0000,
            -0x2000_0000_0000_0000 <= by <= 0x2000_0000_0000_0000,
        ensures
            r == tri_sign(px as int, py as int, ax as int, ay as int, bx as int, by as int),
    {
        let e1: i128 = (px as i128) - (bx as i128);
        let e2: i128 = (ay as i128) - (by as i128);
        let e3: i128 = (ax as i128) - (bx as i128);
        let e4: i128 = (py as i128) - (by as i128);
        proof {
            assert(-0x1000_0000_0000_0000_0000_0000_0000_0000
                <= e1 * e2 <= 0x1000_0000_0000_0000_0000_0000_0000_0000) by (nonlinear_arith)
                requires
                    -0x4000_0000_0000_0000 <= e1 <= 0x4000_0000_0000_0000,
                    -0x4000_0000_0000_0000 <= e2 <= 0x4000_0000_0000_0000,
            ;
            assert(-0x1000_0000_0000_0000_0000_0000_0000_0000
                <= e3 * e4 <= 0x1000_0000_0000_0000_0000_0000_0000_0000) by (nonlinear_arith)
                requires
                    -0x4000_0000_0000_0000 <= e3 <= 0x4000_0000_0000_0000,
                    -0x4000_0000_0000_0000 <= e4 <= 0x4000_0000_0000_0000,
            ;
        }
        e1 * e2 - e3 * e4
    }

    /// Fills the half-plane interior of a screen triangle inside its
    /// clamped bounding box, in front of everything.
    #[verifier::rlimit(60)]
    pub fn rasterize_triangle(&mut self, p1: Vec2, p2: Vec2, p3: Vec2, color: u32)
        requires
            fb_wf(old(self).framebuffer),
            -0x2000_0000_0000_0000 <= p1.x <= 0x2000_0000_0000_0000,
            -0x2000_0000_0000_0000 <= p1.y <= 0x2000_0000_0000_0000,
            -0x2000_0000_0000_0000 <= p2.x <= 0x2000_0000_0000_0000,
            -0x2000_0000_0000_0000 <= p2.y <= 0x2000_0000_0000_0000,
            -0x2000_0000_0000_0000 <= p3.x <= 0x2000_0000_0000_0000,
            -0x2000_0000_0000_0000 <= p3.y <= 0x2000_0000_0000_0000,
        ensures
            fb_wf(final(self).framebuffer),
            final(self).framebuffer.width == old(self).framebuffer.width,
            final(self).framebuffer.height == old(self).framebuffer.height,
            forall|xx: int, yy: int|
                0 <= xx < old(self).framebuffer.width && 0 <= yy < old(self).framebuffer.height
                    ==> #[trigger] tri_pix_ok(
                    old(self).framebuffer,
                    final(self).framebuffer,
                    p1,
                    p2,
                    p3,
                    color,
                    xx,
                    yy,
                ),
    {
        let ghost fb0 = self.framebuffer;
        let w = self.framebuffer.width;
        let h = self.framebuffer.height;
        let mnx: i64 = if p2.x < p1.x {
            if p3.x < p2.x {
                p3.x
            } else {
                p2.x
            }
        } else {
            if p3.x < p1.x {
                p3.x
            } else {
                p1.x
            }
        };
        let mxx: i64 = if p2.x > p1.x {
            if p3.x > p2.x {
                p3.x
            } else {
                p2.x
            }
        } else {
            if p3.x > p1.x {
                p3.x
            } else {
                p1.x
            }
        };
        let mny: i64 = if p2.y < p1.y {
            if p3.y < p2.y {
                p3.y
            } else {
                p2.y
            }
        } else {
            if p3.y < p1.y {
                p3.y
            } else {
                p1.y
            }
        };
        let mxy: i64 = if p2.y > p1.y {
            if p3.y > p2.y {
                p3.y
            } else {
                p2.y
            }
        } else {
            if p3.y > p1.y {
                p3.y
            } else {
                p1.y
            }
        };
        let fx0: i64 = if mnx < 0 {
            0
        } else {
            proof {
                crate::fx::lemma_div_mag_pos(mnx as int, 65536);
                vstd::arithmetic::div_mod::lemma_div_pos_is_pos(mnx as int, 65536);
            }
            mnx.checked_div_euclid(65536).unwrap()
        };
        let fx1: i64 = if mxx < 0 {
            0
        } else {
            proof {
                crate::fx::lemma_div_mag_pos(mxx as int, 65536);
                vstd::arithmetic::div_mod::lemma_div_pos_is_pos(mxx as int, 65536);
            }
            mxx.checked_div_euclid(65536).unwrap()
        };
        let fy0: i64 = if mny < 0 {
            0
        } else {
            proof {
                crate::fx::lemma_div_mag_pos(mny as int, 65536);
                vstd::arithmetic::div_mod::lemma_div_pos_is_pos(mny as int, 65536);
            }
            mny.checked_div_euclid(65536).unwrap()
        };
        let fy1: i64 = if mxy < 0 {
            0
        } else {
            proof {
                crate::fx::lemma_div_mag_pos(mxy as int, 65536);
                vstd::arithmetic::div_mod::lemma_div_pos_is_pos(mxy as int, 65536);
            }
            mxy.checked_div_euclid(65536).unwrap()
        };
        let bx0: usize = if fx0 > w as i64 {
            w
        } else {
            fx0 as usize
        };
        let bx1: usize = if fx1 + 1 > w as i64 {
            w
        } else {
            (fx1 + 1) as usize
        };
        let by0: usize = if fy0 > h as i64 {
            h
        } else {
            fy0 as usize
        };
        let by1: usize = if fy1 + 1 > h as i64 {
            h
        } else {
            (fy1 + 1) as usize
        };
        proof {
            assert(bx0 == tri_bx0(w as int, p1, p2, p3));
            assert(bx1 == tri_bx1(w as int, p1, p2, p3));
            assert(by0 == tri_by0(h as int, p1, p2, p3));
            assert(by1 == tri_by1(h as int, p1, p2, p3));
            if mnx >= 0 {
                vstd::arithmetic::div_mod::lemma_div_is_ordered(mnx as int, mxx as int, 65536);
            }
            if mny >= 0 {
                vstd::arithmetic::div_mod::lemma_div_is_ordered(mny as int, mxy as int, 65536);
            }
            assert(bx0 <= bx1);
            assert(by0 <= by1);
        }
        let mut y: usize = by0;
        while y < by1
            invariant
                fb_wf(self.framebuffer),
                self.framebuffer.width == w,
                self.framebuffer.height == h,
                fb0.width == w,
                fb0.height == h,
                fb0.color_buffer@.len() == self.framebuffer.color_buffer@.len(),
                fb0.depth_buffer@.len() == self.framebuffer.depth_buffer@.len(),
                by0 <= y <= by1,
                by1 <= h,
                bx0 <= bx1 <= w,
                bx0 == tri_bx0(w as int, p1, p2, p3),
                bx1 == tri_bx1(w as int, p1, p2, p3),
                by0 == tri_by0(h as int, p1, p2, p3),
                by1 == tri_by1(h as int, p1, p2, p3),
                -0x2000_0000_0000_0000 <= p1.x <= 0x2000_0000_0000_0000,
                -0x2000_0000_0000_0000 <= p1.y <= 0x2000_0000_0000_0000,
                -0x2000_0000_0000_0000 <= p2.x <= 0x2000_0000_0000_0000,
                -0x2000_0000_0000_0000 <= p2.y <= 0x2000_0000_0000_0000,
                -0x2000_0000_0000_0000 <= p3.x <= 0x2000_0000_0000_0000,
                -0x2000_0000_0000_0000 <= p3.y <= 0x2000_0000_0000_0000,
                forall|xx: int, yy: int|
                    0 <= xx < w && 0 <= yy < y ==> #[trigger] tri_pix_ok(
                        fb0,
                        self.framebuffer,
                        p1,
                        p2,
                        p3,
                        color,
                        xx,
                        yy,
                    ),
                forall|xx: int, yy: int|
                    0 <= xx < w && y <= yy < h ==> #[trigger] same_pix(
                        fb0,
                        self.framebuffer,
                        yy * w + xx,
                    ),
            decreases by1 - y,
        {
            let mut x: usize = bx0;
            while x < bx1
                invariant
                    fb_wf(self.framebuffer),
                    self.framebuffer.width == w,
                    self.framebuffer.height == h,
                    fb0.width == w,
                    fb0.height == h,
                    fb0.color_buffer@.len() == self.framebuffer.color_buffer@.len(),
                    fb0.depth_buffer@.len() == self.framebuffer.depth_buffer@.len(),
                    bx0 <= x <= bx1,
                    by0 <= y < by1,
                    by1 <= h,
                    bx0 <= bx1 <= w,
                    bx0 == tri_bx0(w as int, p1, p2, p3),
                    bx1 == tri_bx1(w as int, p1, p2, p3),
                    by0 == tri_by0(h as int, p1, p2, p3),
                    by1 == tri_by1(h as int, p1, p2, p3),
                    -0x2000_0000_0000_0000 <= p1.x <= 0x2000_0000_0000_0000,
                    -0x2000_0000_0000_0000 <= p1.y <= 0x2000_0000_0000_0000,
                    -0x2000_0000_0000_0000 <= p2.x <= 0x2000_0000_0000_0000,
                    -0x2000_0000_0000_0000 <= p2.y <= 0x2000_0000_0000_0000,
                    -0x2000_0000_0000_0000 <= p3.x <= 0x2000_0000_0000_0000,
                    -0x2000_0000_0000_0000 <= p3.y <= 0x2000_0000_0000_0000,
                    forall|xx: int, yy: int|
                        0 <= xx < w && 0 <= yy < y ==> #[trigger] tri_pix_ok(
                            fb0,
                            self.framebuffer,
                            p1,
                            p2,
                            p3,
                            color,
                            xx,
                            yy,
                        ),
                    forall|xx: int|
                        0 <= xx < x ==> #[trigger] tri_pix_ok(
                            fb0,
                            self.framebuffer,
                            p1,
                            p2,
                            p3,
                            color,
                            xx,
                            y as int,
                        ),
                    forall|xx: int, yy: int|
                        0 <= xx < w && y < yy < h ==> #[trigger] same_pix(
                            fb0,
                            self.framebuffer,
                            yy * w + xx,
                        ),
                    forall|xx: int|
                        x <= xx < w ==> #[trigger] same_pix(
                            fb0,
                            self.framebuffer,
                            (y as int) * w + xx,
                        ),
                    forall|xx: int|
                        0 <= xx < bx0 ==> #[trigger] same_pix(
                            fb0,
                            self.framebuffer,
                            (y as int) * w + xx,
                        ),
                decreases bx1 - x,
            {
                let inside = self.is_point_in_triangle(
                    Vec2 { x: (x as i64) * 65536, y: (y as i64) * 65536 },
                    p1,
                    p2,
                    p3,
                );
                let ghost pre = self.framebuffer;
                proof {
                    lemma_pix_in_range(fb0, x as int, y as int);
                }
                if inside {
                    self.framebuffer.set_pixel(x, y, color, 0);
                }
                proof {
                    let idx0 = (y as int) * w + x;
                    assert(same_pix(fb0, pre, idx0));
                    assert(tri_pix_ok(fb0, self.framebuffer, p1, p2, p3, color, x as int,
                        y as int));
                    assert forall|xx: int, yy: int|
                        0 <= xx < w && 0 <= yy < y implies #[trigger] tri_pix_ok(
                            fb0, self.framebuffer, p1, p2, p3, color, xx, yy,
                        ) by {
                        assert(tri_pix_ok(fb0, pre, p1, p2, p3, color, xx, yy));
                        lemma_pix_in_range(fb0, xx, yy);
                        if yy * w + xx == idx0 {
                            lemma_pix_injective(xx, yy, x as int, y as int, w as int);
                        }
                    }
                    assert forall|xx: int| 0 <= xx < x implies #[trigger] tri_pix_ok(
                            fb0, self.framebuffer, p1, p2, p3, color, xx, y as int,
                        ) by {
                        assert(tri_pix_ok(fb0, pre, p1, p2, p3, color, xx, y as int));
                        lemma_pix_in_range(fb0, xx, y as int);
                        if (y as int) * w + xx == idx0 {
                            lemma_pix_injective(xx, y as int, x as int, y as int, w as int);
                        }
                    }
                    assert forall|xx: int, yy: int|
                        0 <= xx < w && y < yy < h implies #[trigger] same_pix(
                            fb0, self.framebuffer, yy * w + xx,
                        ) by {
                        assert(same_pix(fb0, pre, yy * w + xx));
                        lemma_pix_in_range(fb0, xx, yy);
                        if yy * w + xx == idx0 {
                            lemma_pix_injective(xx, yy, x as int, y as int, w as int);
                        }
                    }
                    assert forall|xx: int| x + 1 <= xx < w implies #[trigger] same_pix(
                            fb0, self.framebuffer, (y as int) * w + xx,
                        ) by {
                        assert(same_pix(fb0, pre, (y as int) * w + xx));
                        lemma_pix_in_range(fb0, xx, y as int);
                        if (y as int) * w + xx == idx0 {
                            lemma_pix_injective(xx, y as int, x as int, y as int, w as int);
                        }
                    }
                    assert forall|xx: int| 0 <= xx < bx0 implies #[trigger] same_pix(
                            fb0, self.framebuffer, (y as int) * w + xx,
                        ) by {
                        assert(same_pix(fb0, pre, (y as int) * w + xx));
                        lemma_pix_in_range(fb0, xx, y as int);
                        if (y as int) * w + xx == idx0 {
                            lemma_pix_injective(xx, y as int, x as int, y as int, w as int);
                        }
                    }
                }
                x = x + 1;
            }
            proof {
                assert forall|xx: int| 0 <= xx < w implies #[trigger] tri_pix_ok(
                        fb0, self.framebuffer, p1, p2, p3, color, xx, y as int,
                    ) by {
                    if xx < bx1 {
                        if xx < bx0 {
                            assert(same_pix(fb0, self.framebuffer, (y as int) * w + xx));
                        } else {
                            assert(tri_pix_ok(fb0, self.framebuffer, p1, p2, p3, color, xx,
                                y as int));
                        }
                    } else {
                        assert(same_pix(fb0, self.framebuffer, (y as int) * w + xx));
                    }
                }
            }
            y = y + 1;
        }
        proof {
            assert forall|xx: int, yy: int|
                0 <= xx < w && 0 <= yy < h implies #[trigger] tri_pix_ok(
                    fb0, self.framebuffer, p1, p2, p3, color, xx, yy,
                ) by {
                if yy >= by1 {
                    assert(same_pix(fb0, self.framebuffer, yy * w + xx));
                }
            }
        }
    }

    /// Projects the three vertices with the fixed-view projection and
    /// rasterizes the resulting screen triangle.
    pub fn draw_triangle(&mut self, p1: Vec3, p2: Vec3, p3: Vec3, color: u32)
        requires
            fb_wf(old(self).framebuffer),
            point_bounded3(p1),
            point_bounded3(p2),
            point_bounded3(p3),
        ensures
            fb_wf(final(self).framebuffer),
            final(self).framebuffer.width == old(self).framebuffer.width,
            final(self).framebuffer.height == old(self).framebuffer.height,
            ({
                let w = old(self).framebuffer.width as int;
                let h = old(self).framebuffer.height as int;
                let s1 = Vec2 { x: proj_x_spec(w, p1) as i64, y: proj_y_spec(h, p1) as i64 };
                let s2 = Vec2 { x: proj_x_spec(w, p2) as i64, y: proj_y_spec(h, p2) as i64 };
                let s3 = Vec2 { x: proj_x_spec(w, p3) as i64, y: proj_y_spec(h, p3) as i64 };
                forall|xx: int, yy: int|
                    0 <= xx < w && 0 <= yy < h ==> #[trigger] tri_pix_ok(
                        old(self).framebuffer,
                        final(self).framebuffer,
                        s1,
                        s2,
                        s3,
                        color,
                        xx,
                        yy,
                    )
            }),
    {
        let screen_p1 = self.project_point(&p1);
        let screen_p2 = self.project_point(&p2);
        let screen_p3 = self.project_point(&p3);
        self.rasterize_triangle(screen_p1, screen_p2, screen_p3, color);
    }

    pub fn get_framebuffer(&self) -> (r: &Framebuffer)
        ensures
            *r == self.framebuffer,
    {
        &self.framebuffer
    }

    pub fn get_width(&self) -> (r: usize)
        ensures
            r == self.framebuffer.width,
    {
        self.framebuffer.width
    }

    pub fn get_height(&self) -> (r: usize)
        ensures
            r == self.framebuffer.height,
    {
        self.framebuffer.height
    }
}

} // verus!
