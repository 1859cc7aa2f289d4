//! The 2D rasterizer: lines, circle outlines, filled circles and filled
//! triangles, drawn pixel by pixel into the framebuffer. Every routine's
//! contract gives the exact pixel set it paints.

use vstd::prelude::*;
use vstd::arithmetic::div_mod::*;
use crate::fixed::{iabs, rdiv, floor_div_i128, lemma_rdiv_bound, isqrt, tdiv, lemma_tdiv_bound, FP_ONE, cos_fx, sin_fx, cos_fp, sin_fp};
use crate::texture::Texture;
use crate::renderer::framebuffer::{FrameBuffer, lemma_row_major, put_spec};

verus! {

/// Pixel membership in the filled circle of the given center and radius;
/// a radius below one selects nothing.
pub open spec fn in_disk(cx: int, cy: int, r: int, x: int, y: int) -> bool {
    r >= 1 && (x - cx) * (x - cx) + (y - cy) * (y - cy) <= r * r
}

/// The buffer with the filled circle painted over it.
pub open spec fn disk_paint(buf: Seq<u32>, w: int, cx: int, cy: int, r: int, c: u32) -> Seq<u32> {
    Seq::new(
        buf.len(),
        |k: int|
            if in_disk(cx, cy, r, k % w, k / w) {
                c
            } else {
                buf[k]
            },
    )
}

/// Distinct row-major indices name distinct pixel coordinates.
proof fn lemma_coords_unique(w: int, k1: int, k2: int)
    requires
        w > 0,
        k1 >= 0,
        k2 >= 0,
        k1 != k2,
    ensures
        k1 % w != k2 % w || k1 / w != k2 / w,
{
    lemma_fundamental_div_mod(k1, w);
    lemma_fundamental_div_mod(k2, w);
    assert(k1 != k2 ==> w * (k1 / w) + k1 % w != w * (k2 / w) + k2 % w);
}

/// On the row `y`, membership in the disk is exactly the span of half-width
/// `hw = floor(sqrt(r^2 - dy^2))` around the center column.
proof fn lemma_disk_row(cx: int, cy: int, r: int, hw: int, y: int, x: int)
    requires
        r >= 1,
        -r <= y - cy <= r,
        hw >= 0,
        hw * hw <= r * r - (y - cy) * (y - cy),
        r * r - (y - cy) * (y - cy) < (hw + 1) * (hw + 1),
    ensures
        in_disk(cx, cy, r, x, y) <==> cx - hw <= x <= cx + hw,
        hw <= r,
{
    assert((in_disk(cx, cy, r, x, y) <==> cx - hw <= x <= cx + hw) && hw <= r)
        by (nonlinear_arith)
        requires
            r >= 1,
            -r <= y - cy <= r,
            hw >= 0,
            hw * hw <= r * r - (y - cy) * (y - cy),
            r * r - (y - cy) * (y - cy) < (hw + 1) * (hw + 1),
            in_disk(cx, cy, r, x, y) == (r >= 1 && (x - cx) * (x - cx) + (y - cy) * (y - cy)
                <= r * r),
    ;
}

/// Rows beyond the radius hold no disk pixel.
proof fn lemma_disk_row_empty(cx: int, cy: int, r: int, x: int, y: int)
    requires
        y - cy > r || cy - y > r,
    ensures
        !in_disk(cx, cy, r, x, y),
{
    assert((x - cx) * (x - cx) + (y - cy) * (y - cy) > r * r || r < 1) by (nonlinear_arith)
        requires
            y - cy > r || cy - y > r,
    ;
}

/// The edge function: the cross product of `b - a` with `p - a`. Its sign
/// tells on which side of the directed edge `a -> b` the point lies.
pub open spec fn edge_fn(ax: int, ay: int, bx: int, by: int, px: int, py: int) -> int {
    (bx - ax) * (py - ay) - (by - ay) * (px - ax)
}

pub open spec fn min3(a: int, b: int, c: int) -> int {
    if a <= b && a <= c {
        a
    } else if b <= c {
        b
    } else {
        c
    }
}

pub open spec fn max3(a: int, b: int, c: int) -> int {
    if a >= b && a >= c {
        a
    } else if b >= c {
        b
    } else {
        c
    }
}

/// A point is inside the triangle when its three edge functions agree in
/// sign, so both windings fill the same pixels. The test is restricted to the
/// vertices' bounding box, which contains every such point.
pub open spec fn in_tri(
    x0: int,
    y0: int,
    x1: int,
    y1: int,
    x2: int,
    y2: int,
    x: int,
    y: int,
) -> bool {
    let e0 = edge_fn(x0, y0, x1, y1, x, y);
    let e1 = edge_fn(x1, y1, x2, y2, x, y);
    let e2 = edge_fn(x2, y2, x0, y0, x, y);
    &&& min3(x0, x1, x2) <= x <= max3(x0, x1, x2)
    &&& min3(y0, y1, y2) <= y <= max3(y0, y1, y2)
    &&& ((e0 >= 0 && e1 >= 0 && e2 >= 0) || (e0 <= 0 && e1 <= 0 && e2 <= 0))
}

/// The buffer with the filled triangle painted over it.
pub open spec fn tri_paint(
    buf: Seq<u32>,
    w: int,
    x0: int,
    y0: int,
    x1: int,
    y1: int,
    x2: int,
    y2: int,
    c: u32,
) -> Seq<u32> {
    Seq::new(
        buf.len(),
        |k: int|
            if in_tri(x0, y0, x1, y1, x2, y2, k % w, k / w) {
                c
            } else {
                buf[k]
            },
    )
}

/// Reversing an edge negates its edge function.
proof fn lemma_edge_antisym(ax: int, ay: int, bx: int, by: int, px: int, py: int)
    ensures
        edge_fn(ax, ay, bx, by, px, py) == -edge_fn(bx, by, ax, ay, px, py),
{
    assert((bx - ax) * (py - ay) - (by - ay) * (px - ax) == -((ax - bx) * (py - by) - (ay - by) * (
    px - bx))) by (nonlinear_arith);
}

/// The filled triangle does not depend on the winding of its vertices:
/// exchanging two vertices reverses every edge, which flips all three signs
/// at once and selects the same point set.
pub proof fn lemma_tri_winding(
    x0: int,
    y0: int,
    x1: int,
    y1: int,
    x2: int,
    y2: int,
    x: int,
    y: int,
)
    ensures
        in_tri(x0, y0, x1, y1, x2, y2, x, y) == in_tri(x0, y0, x2, y2, x1, y1, x, y),
{
    lemma_edge_antisym(x0, y0, x1, y1, x, y);
    lemma_edge_antisym(x1, y1, x2, y2, x, y);
    lemma_edge_antisym(x2, y2, x0, y0, x, y);
}

/// Winding invariance lifted to whole buffers: painting a triangle with its
/// vertex order reversed yields the identical pixel buffer.
pub proof fn lemma_tri_paint_winding(
    buf: Seq<u32>,
    w: int,
    x0: int,
    y0: int,
    x1: int,
    y1: int,
    x2: int,
    y2: int,
    c: u32,
)
    ensures
        tri_paint(buf, w, x0, y0, x1, y1, x2, y2, c) == tri_paint(
            buf,
            w,
            x0,
            y0,
            x2,
            y2,
            x1,
            y1,
            c,
        ),
{
    assert forall|k: int| 0 <= k < buf.len() implies tri_paint(
        buf,
        w,
        x0,
        y0,
        x1,
        y1,
        x2,
        y2,
        c,
    )[k] == tri_paint(buf, w, x0, y0, x2, y2, x1, y1, c)[k] by {
        lemma_tri_winding(x0, y0, x1, y1, x2, y2, k % w, k / w);
    }
    assert(tri_paint(buf, w, x0, y0, x1, y1, x2, y2, c) =~= tri_paint(buf, w, x0, y0, x2, y2, x1,
        y1, c));
}

/// Pixel membership in the raster line between two endpoints. The major axis
/// is walked one cell at a time; the minor coordinate is the rounded linear
/// interpolation. The endpoints are first ordered along the major axis, so
/// the selected pixel set does not depend on the order they are given in.
pub open spec fn on_line(x0: int, y0: int, x1: int, y1: int, x: int, y: int) -> bool {
    let dx = x1 - x0;
    let dy = y1 - y0;
    if dx == 0 && dy == 0 {
        x == x0 && y == y0
    } else if iabs(dx) >= iabs(dy) {
        let ax = if x0 <= x1 { x0 } else { x1 };
        let ay = if x0 <= x1 { y0 } else { y1 };
        let bx = if x0 <= x1 { x1 } else { x0 };
        let by = if x0 <= x1 { y1 } else { y0 };
        ax <= x <= bx && y == ay + rdiv((x - ax) * (by - ay), bx - ax)
    } else {
        let ax = if y0 <= y1 { x0 } else { x1 };
        let ay = if y0 <= y1 { y0 } else { y1 };
        let bx = if y0 <= y1 { x1 } else { x0 };
        let by = if y0 <= y1 { y1 } else { y0 };
        ay <= y <= by && x == ax + rdiv((y - ay) * (bx - ax), by - ay)
    }
}

/// The buffer with the raster line painted over it.
pub open spec fn line_paint(
    buf: Seq<u32>,
    w: int,
    x0: int,
    y0: int,
    x1: int,
    y1: int,
    c: u32,
) -> Seq<u32> {
    Seq::new(
        buf.len(),
        |k: int|
            if on_line(x0, y0, x1, y1, k % w, k / w) {
                c
            } else {
                buf[k]
            },
    )
}

/// The raster line is symmetric in its endpoints: both orders name the same
/// pixel set, because the walk is canonicalized along the major axis.
pub proof fn lemma_line_symmetric(x0: int, y0: int, x1: int, y1: int, x: int, y: int)
    ensures
        on_line(x0, y0, x1, y1, x, y) == on_line(x1, y1, x0, y0, x, y),
{
}

/// The edge function evaluated in executable code, on wide integers.
fn edge_val(ax: i64, ay: i64, bx: i64, by: i64, px: i64, py: i64) -> (e: i128)
    requires
        -0x1_0000_0000 <= ax <= 0x1_0000_0000,
        -0x1_0000_0000 <= ay <= 0x1_0000_0000,
        -0x1_0000_0000 <= bx <= 0x1_0000_0000,
        -0x1_0000_0000 <= by <= 0x1_0000_0000,
        -0x1_0000_0000 <= px <= 0x1_0000_0000,
        -0x1_0000_0000 <= py <= 0x1_0000_0000,
    ensures
        e == edge_fn(ax as int, ay as int, bx as int, by as int, px as int, py as int),
{
    proof {
        assert(-0x4_0000_0000_0000_0000 <= (bx - ax) * (py - ay) <= 0x4_0000_0000_0000_0000
            && -0x4_0000_0000_0000_0000 <= (by - ay) * (px - ax) <= 0x4_0000_0000_0000_0000)
            by (nonlinear_arith)
            requires
                -0x2_0000_0000 <= bx - ax <= 0x2_0000_0000,
                -0x2_0000_0000 <= py - ay <= 0x2_0000_0000,
                -0x2_0000_0000 <= by - ay <= 0x2_0000_0000,
                -0x2_0000_0000 <= px - ax <= 0x2_0000_0000,
        ;
    }
    ((bx - ax) as i128) * ((py - ay) as i128) - ((by - ay) as i128) * ((px - ax) as i128)
}

impl FrameBuffer {
    /// Fill the triangle with the given vertices: every buffer pixel whose
    /// edge functions agree in sign takes the color, independent of winding;
    /// all other pixels keep their value.
    pub fn triangle(&mut self, p0: (i32, i32), p1: (i32, i32), p2: (i32, i32), color: u32)
        requires
            old(self).wf(),
        ensures
            final(self).wf(),
            final(self).width == old(self).width,
            final(self).height == old(self).height,
            final(self).pixels@ == tri_paint(
                old(self).pixels@,
                old(self).width as int,
                p0.0 as int,
                p0.1 as int,
                p1.0 as int,
                p1.1 as int,
                p2.0 as int,
                p2.1 as int,
                color,
            ),
    {
        let wl: i64 = self.width as i64;
        let hl: i64 = self.height as i64;
        let x0: i64 = p0.0 as i64;
        let y0: i64 = p0.1 as i64;
        let x1: i64 = p1.0 as i64;
        let y1: i64 = p1.1 as i64;
        let x2: i64 = p2.0 as i64;
        let y2: i64 = p2.1 as i64;
        let ghost len = self.pixels@.len() as int;
        let ghost buf0 = self.pixels@;
        let bx0: i64 = if x0 <= x1 && x0 <= x2 { x0 } else if x1 <= x2 { x1 } else { x2 };
        let bx1: i64 = if x0 >= x1 && x0 >= x2 { x0 } else if x1 >= x2 { x1 } else { x2 };
        let by0: i64 = if y0 <= y1 && y0 <= y2 { y0 } else if y1 <= y2 { y1 } else { y2 };
        let by1: i64 = if y0 >= y1 && y0 >= y2 { y0 } else if y1 >= y2 { y1 } else { y2 };
        let ys: i64 = if by0 > 0 { by0 } else { 0 };
        let ye: i64 = if by1 < hl - 1 { by1 } else { hl - 1 };
        let xs: i64 = if bx0 > 0 { bx0 } else { 0 };
        let xe: i64 = if bx1 < wl - 1 { bx1 } else { wl - 1 };
        let mut y: i64 = ys;
        while y <= ye
            invariant
                self.wf(),
                self.width == old(self).width,
                self.height == old(self).height,
                wl == self.width as i64,
                hl == self.height as i64,
                x0 == p0.0 as i64 && y0 == p0.1 as i64,
                x1 == p1.0 as i64 && y1 == p1.1 as i64,
                x2 == p2.0 as i64 && y2 == p2.1 as i64,
                bx0 == min3(x0 as int, x1 as int, x2 as int),
                bx1 == max3(x0 as int, x1 as int, x2 as int),
                by0 == min3(y0 as int, y1 as int, y2 as int),
                by1 == max3(y0 as int, y1 as int, y2 as int),
                len == self.pixels@.len(),
                buf0 == old(self).pixels@,
                len == buf0.len(),
                ys <= y,
                ys == (if by0 > 0 { by0 } else { 0 }),
                ye == (if by1 < hl - 1 { by1 as int } else { hl - 1 }),
                xs == (if bx0 > 0 { bx0 } else { 0 }),
                xe == (if bx1 < wl - 1 { bx1 as int } else { wl - 1 }),
                forall|k: int|
                    0 <= k < len ==> self.pixels@[k] == (if in_tri(
                        x0 as int,
                        y0 as int,
                        x1 as int,
                        y1 as int,
                        x2 as int,
                        y2 as int,
                        k % (wl as int),
                        k / (wl as int),
                    ) && k / (wl as int) < y {
                        color
                    } else {
                        buf0[k]
                    }),
            decreases ye - y + 1,
        {
            let mut x: i64 = xs;
            while x <= xe
                invariant
                    self.wf(),
                    self.width == old(self).width,
                    self.height == old(self).height,
                    wl == self.width as i64,
                    hl == self.height as i64,
                    x0 == p0.0 as i64 && y0 == p0.1 as i64,
                    x1 == p1.0 as i64 && y1 == p1.1 as i64,
                    x2 == p2.0 as i64 && y2 == p2.1 as i64,
                    bx0 == min3(x0 as int, x1 as int, x2 as int),
                    bx1 == max3(x0 as int, x1 as int, x2 as int),
                    by0 == min3(y0 as int, y1 as int, y2 as int),
                    by1 == max3(y0 as int, y1 as int, y2 as int),
                    len == self.pixels@.len(),
                    buf0 == old(self).pixels@,
                    len == buf0.len(),
                    ys <= y,
                    y <= ye,
                    0 <= y < hl,
                    xs <= x,
                    ys == (if by0 > 0 { by0 } else { 0 }),
                    ye == (if by1 < hl - 1 { by1 as int } else { hl - 1 }),
                    xs == (if bx0 > 0 { bx0 } else { 0 }),
                    xe == (if bx1 < wl - 1 { bx1 as int } else { wl - 1 }),
                    forall|k: int|
                        0 <= k < len ==> self.pixels@[k] == (if in_tri(
                            x0 as int,
                            y0 as int,
                            x1 as int,
                            y1 as int,
                            x2 as int,
                            y2 as int,
                            k % (wl as int),
                            k / (wl as int),
                        ) && (k / (wl as int) < y || (k / (wl as int) == y && k % (wl as int)
                            < x)) {
                            color
                        } else {
                            buf0[k]
                        }),
                decreases xe - x + 1,
            {
                let e0 = edge_val(x0, y0, x1, y1, x, y);
                let e1 = edge_val(x1, y1, x2, y2, x, y);
                let e2 = edge_val(x2, y2, x0, y0, x, y);
                let inside = (e0 >= 0 && e1 >= 0 && e2 >= 0) || (e0 <= 0 && e1 <= 0 && e2 <= 0);
                proof {
                    lemma_row_major(wl as int, hl as int, x as int, y as int);
                    assert forall|k: int|
                        #![trigger k % (wl as int)]
                        0 <= k < len && k != (y as int) * (wl as int) + (x as int)
                        implies (k % (wl as int) != x as int || k / (wl as int)
                        != y as int) by {
                        lemma_coords_unique(wl as int, k, (y as int) * (wl as int) + (x as int));
                        lemma_row_major(wl as int, hl as int, x as int, y as int);
                    }
                }
                if inside {
                    let idx: usize = (y as usize) * self.width + (x as usize);
                    self.pixels[idx] = color;
                }
                x = x + 1;
            }
            proof {
                assert forall|k: int| 0 <= k < len implies self.pixels@[k] == (if in_tri(
                    x0 as int,
                    y0 as int,
                    x1 as int,
                    y1 as int,
                    x2 as int,
                    y2 as int,
                    k % (wl as int),
                    k / (wl as int),
                ) && k / (wl as int) < y + 1 {
                    color
                } else {
                    buf0[k]
                }) by {
                    let xx = k % (wl as int);
                    let yy = k / (wl as int);
                    lemma_mod_bound(k, wl as int);
                    lemma_div_pos_is_pos(k, wl as int);
                }
            }
            y = y + 1;
        }
        proof {
            assert forall|k: int| 0 <= k < len implies self.pixels@[k] == (if in_tri(
                x0 as int,
                y0 as int,
                x1 as int,
                y1 as int,
                x2 as int,
                y2 as int,
                k % (wl as int),
                k / (wl as int),
            ) {
                color
            } else {
                buf0[k]
            }) by {
                let xx = k % (wl as int);
                let yy = k / (wl as int);
                lemma_mod_bound(k, wl as int);
                lemma_div_pos_is_pos(k, wl as int);
                if in_tri(x0 as int, y0 as int, x1 as int, y1 as int, x2 as int, y2 as int, xx, yy)
                    && !(yy < y) {
                    lemma_fundamental_div_mod(k, wl as int);
                    assert(yy < hl) by (nonlinear_arith)
                        requires
                            (wl as int) * yy + xx == k,
                            xx >= 0,
                            k < len,
                            len <= (wl as int) * (hl as int),
                            wl > 0,
                    ;
                    assert(false);
                }
            }
            assert(self.pixels@ =~= tri_paint(buf0, wl as int, x0 as int, y0 as int, x1 as int,
                y1 as int, x2 as int, y2 as int, color));
        }
    }

    /// Draw the raster line between two endpoints; the pixel set is the same
    /// for either endpoint order.
    pub fn line(&mut self, p0: (i32, i32), p1: (i32, i32), color: u32)
        requires
            old(self).wf(),
        ensures
            final(self).wf(),
            final(self).width == old(self).width,
            final(self).height == old(self).height,
            final(self).pixels@ == line_paint(
                old(self).pixels@,
                old(self).width as int,
                p0.0 as int,
                p0.1 as int,
                p1.0 as int,
                p1.1 as int,
                color,
            ),
    {
        let wl: i64 = self.width as i64;
        let hl: i64 = self.height as i64;
        let ghost len = self.pixels@.len() as int;
        let ghost buf0 = self.pixels@;
        let dx0: i64 = p1.0 as i64 - p0.0 as i64;
        let dy0: i64 = p1.1 as i64 - p0.1 as i64;
        if dx0 == 0 && dy0 == 0 {
            self.put_pixel(p0.0, p0.1, color);
            proof {
                assert forall|k: int| 0 <= k < len implies self.pixels@[k] == line_paint(
                    buf0,
                    wl as int,
                    p0.0 as int,
                    p0.1 as int,
                    p1.0 as int,
                    p1.1 as int,
                    color,
                )[k] by {
                    lemma_mod_bound(k, wl as int);
                    lemma_div_pos_is_pos(k, wl as int);
                    if 0 <= p0.0 < wl && 0 <= p0.1 < hl {
                        lemma_row_major(wl as int, hl as int, p0.0 as int, p0.1 as int);
                        if k != (p0.1 as int) * (wl as int) + (p0.0 as int) {
                            lemma_coords_unique(wl as int, k, (p0.1 as int) * (wl as int) + (
                            p0.0 as int));
                        }
                    } else {
                        lemma_fundamental_div_mod(k, wl as int);
                        assert(k / (wl as int) < hl) by (nonlinear_arith)
                            requires
                                (wl as int) * (k / (wl as int)) + k % (wl as int) == k,
                                k % (wl as int) >= 0,
                                k < len,
                                len <= (wl as int) * (hl as int),
                                wl > 0,
                        ;
                    }
                }
                assert(self.pixels@ =~= line_paint(buf0, wl as int, p0.0 as int, p0.1 as int,
                    p1.0 as int, p1.1 as int, color));
            }
            return;
        }
        let adx: i64 = if dx0 >= 0 { dx0 } else { -dx0 };
        let ady: i64 = if dy0 >= 0 { dy0 } else { -dy0 };
        if adx >= ady {
            let ax: i64 = if p0.0 <= p1.0 { p0.0 as i64 } else { p1.0 as i64 };
            let ay: i64 = if p0.0 <= p1.0 { p0.1 as i64 } else { p1.1 as i64 };
            let bx: i64 = if p0.0 <= p1.0 { p1.0 as i64 } else { p0.0 as i64 };
            let by: i64 = if p0.0 <= p1.0 { p1.1 as i64 } else { p0.1 as i64 };
            let dxl: i64 = bx - ax;
            let dyl: i64 = by - ay;
            let xs: i64 = if ax > 0 { ax } else { 0 };
            let xe: i64 = if bx < wl - 1 { bx } else { wl - 1 };
            let mut x: i64 = xs;
            while x <= xe
                invariant
                    self.wf(),
                    self.width == old(self).width,
                    self.height == old(self).height,
                    wl == self.width as i64,
                    hl == self.height as i64,
                    len == self.pixels@.len(),
                    buf0 == old(self).pixels@,
                    len == buf0.len(),
                    1 <= dxl,
                    dxl == bx - ax,
                    dyl == by - ay,
                    -dxl <= dyl <= dxl,
                    ax == (if p0.0 <= p1.0 { p0.0 as i64 } else { p1.0 as i64 }),
                    ay == (if p0.0 <= p1.0 { p0.1 as i64 } else { p1.1 as i64 }),
                    bx == (if p0.0 <= p1.0 { p1.0 as i64 } else { p0.0 as i64 }),
                    by == (if p0.0 <= p1.0 { p1.1 as i64 } else { p0.1 as i64 }),
                    iabs(p1.0 as int - p0.0 as int) >= iabs(p1.1 as int - p0.1 as int),
                    !(p1.0 as int - p0.0 as int == 0 && p1.1 as int - p0.1 as int == 0),
                    xs <= x,
                    xs == (if ax > 0 { ax as int } else { 0 }),
                    xe == (if bx < wl - 1 { bx as int } else { wl - 1 }),
                    forall|k: int|
                        0 <= k < len ==> self.pixels@[k] == (if on_line(
                            p0.0 as int,
                            p0.1 as int,
                            p1.0 as int,
                            p1.1 as int,
                            k % (wl as int),
                            k / (wl as int),
                        ) && k % (wl as int) < x {
                            color
                        } else {
                            buf0[k]
                        }),
                decreases xe - x + 1,
            {
                proof {
                    assert(-(dxl * dxl) <= (x - ax) * dyl <= dxl * dxl) by (nonlinear_arith)
                        requires
                            0 <= x - ax <= dxl,
                            -dxl <= dyl <= dxl,
                    ;
                    assert(dxl * dxl <= 0x1_0000_0000 * 0x1_0000_0000) by (nonlinear_arith)
                        requires
                            0 <= dxl <= 0x1_0000_0000,
                    ;
                }
                let prod: i128 = ((x - ax) as i128) * (dyl as i128);
                proof {
                    assert(prod == (x - ax) as int * dyl as int);
                }
                let num: i128 = 2 * prod + (dxl as i128);
                let q: i128 = floor_div_i128(num, 2 * (dxl as i128));
                proof {
                    lemma_rdiv_bound((x - ax) as int * dyl as int, dxl as int, dxl as int);
                    assert(q == rdiv((x - ax) as int * dyl as int, dxl as int));
                }
                let py: i64 = ay + (q as i64);
                proof {
                    assert forall|k: int|
                        #![trigger k % (wl as int)]
                        0 <= k < len implies (k % (wl as int) == x as int ==> (k / (wl as int)
                        == py as int <==> (0 <= py < hl && k == (py as int) * (wl as int) + (
                        x as int)))) by {
                        lemma_mod_bound(k, wl as int);
                        lemma_div_pos_is_pos(k, wl as int);
                        lemma_fundamental_div_mod(k, wl as int);
                        assert(k / (wl as int) < hl) by (nonlinear_arith)
                            requires
                                (wl as int) * (k / (wl as int)) + k % (wl as int) == k,
                                k % (wl as int) >= 0,
                                k < len,
                                len <= (wl as int) * (hl as int),
                                wl > 0,
                        ;
                        if 0 <= py < hl && 0 <= x < wl {
                            lemma_row_major(wl as int, hl as int, x as int, py as int);
                            if k != (py as int) * (wl as int) + (x as int) {
                                lemma_coords_unique(wl as int, k, (py as int) * (wl as int) + (
                                x as int));
                            }
                        }
                    }
                }
                if py >= 0 && py < hl {
                    proof {
                        lemma_row_major(wl as int, hl as int, x as int, py as int);
                    }
                    let idx: usize = (py as usize) * self.width + (x as usize);
                    self.pixels[idx] = color;
                }
                x = x + 1;
            }
            proof {
                assert forall|k: int| 0 <= k < len implies self.pixels@[k] == (if on_line(
                    p0.0 as int,
                    p0.1 as int,
                    p1.0 as int,
                    p1.1 as int,
                    k % (wl as int),
                    k / (wl as int),
                ) {
                    color
                } else {
                    buf0[k]
                }) by {
                    lemma_mod_bound(k, wl as int);
                    lemma_div_pos_is_pos(k, wl as int);
                }
                assert(self.pixels@ =~= line_paint(buf0, wl as int, p0.0 as int, p0.1 as int,
                    p1.0 as int, p1.1 as int, color));
            }
        } else {
            let ax: i64 = if p0.1 <= p1.1 { p0.0 as i64 } else { p1.0 as i64 };
            let ay: i64 = if p0.1 <= p1.1 { p0.1 as i64 } else { p1.1 as i64 };
            let bx: i64 = if p0.1 <= p1.1 { p1.0 as i64 } else { p0.0 as i64 };
            let by: i64 = if p0.1 <= p1.1 { p1.1 as i64 } else { p0.1 as i64 };
            let dxl: i64 = bx - ax;
            let dyl: i64 = by - ay;
            let ys: i64 = if ay > 0 { ay } else { 0 };
            let ye: i64 = if by < hl - 1 { by } else { hl - 1 };
            let mut y: i64 = ys;
            while y <= ye
                invariant
                    self.wf(),
                    self.width == old(self).width,
                    self.height == old(self).height,
                    wl == self.width as i64,
                    hl == self.height as i64,
                    len == self.pixels@.len(),
                    buf0 == old(self).pixels@,
                    len == buf0.len(),
                    1 <= dyl,
                    dxl == bx - ax,
                    dyl == by - ay,
                    -dyl <= dxl <= dyl,
                    ax == (if p0.1 <= p1.1 { p0.0 as i64 } else { p1.0 as i64 }),
                    ay == (if p0.1 <= p1.1 { p0.1 as i64 } else { p1.1 as i64 }),
                    bx == (if p0.1 <= p1.1 { p1.0 as i64 } else { p0.0 as i64 }),
                    by == (if p0.1 <= p1.1 { p1.1 as i64 } else { p0.1 as i64 }),
                    iabs(p1.0 as int - p0.0 as int) < iabs(p1.1 as int - p0.1 as int),
                    ys <= y,
                    ys == (if ay > 0 { ay as int } else { 0 }),
                    ye == (if by < hl - 1 { by as int } else { hl - 1 }),
                    forall|k: int|
                        0 <= k < len ==> self.pixels@[k] == (if on_line(
                            p0.0 as int,
                            p0.1 as int,
                            p1.0 as int,
                            p1.1 as int,
                            k % (wl as int),
                            k / (wl as int),
                        ) && k / (wl as int) < y {
                            color
                        } else {
                            buf0[k]
                        }),
                decreases ye - y + 1,
            {
                proof {
                    assert(-(dyl * dyl) <= (y - ay) * dxl <= dyl * dyl) by (nonlinear_arith)
                        requires
                            0 <= y - ay <= dyl,
                            -dyl <= dxl <= dyl,
                    ;
                    assert(dyl * dyl <= 0x1_0000_0000 * 0x1_0000_0000) by (nonlinear_arith)
                        requires
                            0 <= dyl <= 0x1_0000_0000,
                    ;
                }
                let prod: i128 = ((y - ay) as i128) * (dxl as i128);
                proof {
                    assert(prod == (y - ay) as int * dxl as int);
                }
                let num: i128 = 2 * prod + (dyl as i128);
                let q: i128 = floor_div_i128(num, 2 * (dyl as i128));
                proof {
                    lemma_rdiv_bound((y - ay) as int * dxl as int, dyl as int, dyl as int);
                    assert(q == rdiv((y - ay) as int * dxl as int, dyl as int));
                }
                let px: i64 = ax + (q as i64);
                proof {
                    assert forall|k: int|
                        #![trigger k / (wl as int)]
                        0 <= k < len implies (k / (wl as int) == y as int ==> (k % (wl as int)
                        == px as int <==> (0 <= px < wl && k == (y as int) * (wl as int) + (
                        px as int)))) by {
                        lemma_mod_bound(k, wl as int);
                        lemma_div_pos_is_pos(k, wl as int);
                        lemma_fundamental_div_mod(k, wl as int);
                        if 0 <= px < wl && 0 <= y < hl {
                            lemma_row_major(wl as int, hl as int, px as int, y as int);
                            if k != (y as int) * (wl as int) + (px as int) {
                                lemma_coords_unique(wl as int, k, (y as int) * (wl as int) + (
                                px as int));
                            }
                        }
                    }
                }
                if px >= 0 && px < wl {
                    proof {
                        lemma_row_major(wl as int, hl as int, px as int, y as int);
                    }
                    let idx: usize = (y as usize) * self.width + (px as usize);
                    self.pixels[idx] = color;
                }
                y = y + 1;
            }
            proof {
                assert forall|k: int| 0 <= k < len implies self.pixels@[k] == (if on_line(
                    p0.0 as int,
                    p0.1 as int,
                    p1.0 as int,
                    p1.1 as int,
                    k % (wl as int),
                    k / (wl as int),
                ) {
                    color
                } else {
                    buf0[k]
                }) by {
                    lemma_mod_bound(k, wl as int);
                    lemma_div_pos_is_pos(k, wl as int);
                    lemma_fundamental_div_mod(k, wl as int);
                    assert(k / (wl as int) < hl) by (nonlinear_arith)
                        requires
                            (wl as int) * (k / (wl as int)) + k % (wl as int) == k,
                            k % (wl as int) >= 0,
                            k < len,
                            len <= (wl as int) * (hl as int),
                            wl > 0,
                    ;
                }
                assert(self.pixels@ =~= line_paint(buf0, wl as int, p0.0 as int, p0.1 as int,
                    p1.0 as int, p1.1 as int, color));
            }
        }
    }

    /// Fill the circle of the given center and radius: every buffer pixel in
    /// the disk takes the color, all others keep their value. A radius below
    /// one paints nothing.
    pub fn filled_circle(&mut self, cx: i32, cy: i32, radius: i32, color: u32)
        requires
            old(self).wf(),
        ensures
            final(self).wf(),
            final(self).width == old(self).width,
            final(self).height == old(self).height,
            final(self).pixels@ == disk_paint(
                old(self).pixels@,
                old(self).width as int,
                cx as int,
                cy as int,
                radius as int,
                color,
            ),
    {
        let wl: i64 = self.width as i64;
        let hl: i64 = self.height as i64;
        let cxl: i64 = cx as i64;
        let cyl: i64 = cy as i64;
        let rl: i64 = radius as i64;
        let ghost len = self.pixels@.len() as int;
        let ghost buf0 = self.pixels@;
        if radius <= 0 {
            proof {
                assert(self.pixels@ =~= disk_paint(buf0, wl as int, cxl as int, cyl as int,
                    rl as int, color));
            }
            return;
        }
        let ys: i64 = if cyl - rl > 0 { cyl - rl } else { 0 };
        let ye: i64 = if cyl + rl < hl - 1 { cyl + rl } else { hl - 1 };
        let mut y: i64 = ys;
        proof {
            assert forall|k: int| 0 <= k < len implies !(#[trigger] in_disk(
                cxl as int,
                cyl as int,
                rl as int,
                k % (wl as int),
                k / (wl as int),
            ) && k / (wl as int) < ys) by {
                lemma_mod_bound(k, wl as int);
                lemma_div_pos_is_pos(k, wl as int);
                if k / (wl as int) < ys && ys == cyl - rl {
                    lemma_disk_row_empty(cxl as int, cyl as int, rl as int, k % (wl as int),
                        k / (wl as int));
                }
            }
        }
        while y <= ye
            invariant
                self.wf(),
                self.width == old(self).width,
                self.height == old(self).height,
                wl == self.width as i64,
                hl == self.height as i64,
                cxl == cx as i64 && cyl == cy as i64 && rl == radius as i64,
                rl >= 1,
                len == self.pixels@.len(),
                buf0 == old(self).pixels@,
                len == buf0.len(),
                ys <= y,
                ys == (if cyl - rl > 0 { cyl - rl } else { 0 }),
                ye == (if cyl + rl < hl - 1 { cyl + rl } else { hl - 1 }),
                forall|k: int|
                    0 <= k < len ==> self.pixels@[k] == (if in_disk(
                        cxl as int,
                        cyl as int,
                        rl as int,
                        k % (wl as int),
                        k / (wl as int),
                    ) && k / (wl as int) < y {
                        color
                    } else {
                        buf0[k]
                    }),
            decreases ye - y + 1,
        {
            let dy: i64 = y - cyl;
            proof {
                assert(0 <= dy * dy <= rl * rl && rl * rl <= 0x4000_0000_0000_0000)
                    by (nonlinear_arith)
                    requires
                        -rl <= dy <= rl,
                        1 <= rl < 0x8000_0000,
                ;
            }
            let sq: u128 = (rl * rl - dy * dy) as u128;
            let hw128: u128 = isqrt(sq);
            proof {
                assert(hw128 <= rl) by (nonlinear_arith)
                    requires
                        hw128 * hw128 <= sq,
                        sq <= rl * rl,
                        rl >= 1,
                        hw128 >= 0,
                ;
            }
            let hw: i64 = hw128 as i64;
            let xs: i64 = if cxl - hw > 0 { cxl - hw } else { 0 };
            let xe: i64 = if cxl + hw < wl - 1 { cxl + hw } else { wl - 1 };
            let mut x: i64 = xs;
            proof {
                assert forall|k: int|
                    0 <= k < len && k / (wl as int) == y && #[trigger] in_disk(
                        cxl as int,
                        cyl as int,
                        rl as int,
                        k % (wl as int),
                        k / (wl as int),
                    ) implies !(k % (wl as int) < xs) by {
                    lemma_mod_bound(k, wl as int);
                    lemma_div_pos_is_pos(k, wl as int);
                    lemma_disk_row(cxl as int, cyl as int, rl as int, hw as int, y as int,
                        k % (wl as int));
                }
            }
            while x <= xe
                invariant
                    self.wf(),
                    self.width == old(self).width,
                    self.height == old(self).height,
                    wl == self.width as i64,
                    hl == self.height as i64,
                    cxl == cx as i64 && cyl == cy as i64 && rl == radius as i64,
                    rl >= 1,
                    len == self.pixels@.len(),
                    len == buf0.len(),
                    ys <= y,
                    y <= ye,
                    0 <= y < hl,
                    ye == (if cyl + rl < hl - 1 { cyl + rl } else { hl - 1 }),
                    dy == y - cyl,
                    -rl <= dy <= rl,
                    0 <= hw <= rl,
                    hw * hw <= rl * rl - dy * dy,
                    rl * rl - dy * dy < (hw + 1) * (hw + 1),
                    xs <= x,
                    xs == (if cxl - hw > 0 { cxl - hw } else { 0 }),
                    xe == (if cxl + hw < wl - 1 { cxl + hw } else { wl - 1 }),
                    forall|k: int|
                        0 <= k < len ==> self.pixels@[k] == (if in_disk(
                            cxl as int,
                            cyl as int,
                            rl as int,
                            k % (wl as int),
                            k / (wl as int),
                        ) && (k / (wl as int) < y || (k / (wl as int) == y && k % (wl as int)
                            < x)) {
                            color
                        } else {
                            buf0[k]
                        }),
                decreases xe - x + 1,
            {
                proof {
                    lemma_row_major(wl as int, hl as int, x as int, y as int);
                    lemma_disk_row(cxl as int, cyl as int, rl as int, hw as int, y as int,
                        x as int);
                    assert forall|k: int|
                        #![trigger k % (wl as int)]
                        0 <= k < len && k != (y as int) * (wl as int) + (x as int)
                        implies (k % (wl as int) != x as int || k / (wl as int)
                        != y as int) by {
                        lemma_coords_unique(wl as int, k, (y as int) * (wl as int) + (x as int));
                        lemma_row_major(wl as int, hl as int, x as int, y as int);
                    }
                }
                let idx: usize = (y as usize) * self.width + (x as usize);
                self.pixels[idx] = color;
                x = x + 1;
            }
            proof {
                assert forall|k: int| 0 <= k < len implies self.pixels@[k] == (if in_disk(
                    cxl as int,
                    cyl as int,
                    rl as int,
                    k % (wl as int),
                    k / (wl as int),
                ) && k / (wl as int) < y + 1 {
                    color
                } else {
                    buf0[k]
                }) by {
                    let xx = k % (wl as int);
                    let yy = k / (wl as int);
                    lemma_mod_bound(k, wl as int);
                    lemma_div_pos_is_pos(k, wl as int);
                    if yy == y as int && in_disk(cxl as int, cyl as int, rl as int, xx, yy) {
                        lemma_disk_row(cxl as int, cyl as int, rl as int, hw as int, y as int,
                            xx);
                        if xx >= x {
                            // the span ends at the disk's edge or the screen's edge,
                            // and xx lies beyond the span's last column either way
                            assert(xx <= cxl + hw);
                            assert(xx < wl as int);
                            assert(false);
                        }
                    }
                }
            }
            y = y + 1;
        }
        proof {
            assert forall|k: int| 0 <= k < len implies self.pixels@[k] == (if in_disk(
                cxl as int,
                cyl as int,
                rl as int,
                k % (wl as int),
                k / (wl as int),
            ) {
                color
            } else {
                buf0[k]
            }) by {
                let xx = k % (wl as int);
                let yy = k / (wl as int);
                lemma_mod_bound(k, wl as int);
                lemma_div_pos_is_pos(k, wl as int);
                if in_disk(cxl as int, cyl as int, rl as int, xx, yy) && !(yy < y) {
                    lemma_fundamental_div_mod(k, wl as int);
                    assert(yy < hl) by (nonlinear_arith)
                        requires
                            (wl as int) * yy + xx == k,
                            xx >= 0,
                            k < len,
                            len <= (wl as int) * (hl as int),
                            wl > 0,
                    ;
                    lemma_disk_row_empty(cxl as int, cyl as int, rl as int, xx, yy);
                    assert(false);
                }
            }
            assert(self.pixels@ =~= disk_paint(buf0, wl as int, cxl as int, cyl as int, rl as int,
                color));
        }
    }
}

/// The octant points visited by the midpoint circle recurrence from the
/// decision state `(x, y, d)`: while `y <= x`, the point `(x, y)` is plotted,
/// then `y` advances, and `x` retreats exactly when the decision value is
/// nonnegative.
pub open spec fn oct_pts(x: int, y: int, d: int) -> Seq<(int, int)>
    decreases x - y + 2,
{
    if y > x {
        Seq::empty()
    } else if d < 0 {
        seq![(x, y)] + oct_pts(x, y + 1, d + 2 * y + 3)
    } else {
        seq![(x, y)] + oct_pts(x - 1, y + 1, d + 2 * (y - x) + 5)
    }
}

/// The eight symmetric images of an octant point around a center.
pub open spec fn is_image(cx: int, cy: int, a: int, b: int, x: int, y: int) -> bool {
    ||| (x == cx + a && y == cy + b)
    ||| (x == cx - a && y == cy + b)
    ||| (x == cx + a && y == cy - b)
    ||| (x == cx - a && y == cy - b)
    ||| (x == cx + b && y == cy + a)
    ||| (x == cx - b && y == cy + a)
    ||| (x == cx + b && y == cy - a)
    ||| (x == cx - b && y == cy - a)
}

/// Pixel membership in the circle outline: an image of some midpoint octant
/// point. A radius below one selects nothing.
pub open spec fn on_circle(cx: int, cy: int, r: int, x: int, y: int) -> bool {
    r >= 1 && exists|j: int|
        0 <= j < oct_pts(r, 0, 1 - r).len() && is_image(
            cx,
            cy,
            (#[trigger] oct_pts(r, 0, 1 - r)[j]).0,
            oct_pts(r, 0, 1 - r)[j].1,
            x,
            y,
        )
}

/// The buffer with the circle outline painted over it.
pub open spec fn circle_paint(
    buf: Seq<u32>,
    w: int,
    cx: int,
    cy: int,
    r: int,
    c: u32,
) -> Seq<u32> {
    Seq::new(
        buf.len(),
        |k: int|
            if on_circle(cx, cy, r, k % w, k / w) {
                c
            } else {
                buf[k]
            },
    )
}

/// Membership of a pixel among the images of an explicit point list.
pub open spec fn image_of_any(pts: Seq<(int, int)>, cx: int, cy: int, x: int, y: int) -> bool {
    exists|j: int|
        0 <= j < pts.len() && is_image(cx, cy, (#[trigger] pts[j]).0, pts[j].1, x, y)
}

impl FrameBuffer {
    /// Draw the outline of the circle with the given center and radius, as
    /// the eight-way symmetric point set of the midpoint recurrence. A radius
    /// below one paints nothing.
    pub fn circle(&mut self, center: (i32, i32), radius: i32, color: u32)
        requires
            old(self).wf(),
        ensures
            final(self).wf(),
            final(self).width == old(self).width,
            final(self).height == old(self).height,
            final(self).pixels@ == circle_paint(
                old(self).pixels@,
                old(self).width as int,
                center.0 as int,
                center.1 as int,
                radius as int,
                color,
            ),
    {
        let wl: i64 = self.width as i64;
        let hl: i64 = self.height as i64;
        let cx: i64 = center.0 as i64;
        let cy: i64 = center.1 as i64;
        let rl: i64 = radius as i64;
        let ghost len = self.pixels@.len() as int;
        let ghost buf0 = self.pixels@;
        if radius <= 0 {
            proof {
                assert(self.pixels@ =~= circle_paint(buf0, wl as int, cx as int, cy as int,
                    rl as int, color));
            }
            return;
        }
        let mut x: i64 = rl;
        let mut y: i64 = 0;
        let mut d: i128 = 1 - (rl as i128);
        let ghost mut visited: Seq<(int, int)> = Seq::empty();
        proof {
            assert(oct_pts(rl as int, 0, 1 - rl as int) =~= visited + oct_pts(rl as int, 0, 1
                - rl as int));
        }
        while y <= x
            invariant
                self.wf(),
                self.width == old(self).width,
                self.height == old(self).height,
                wl == self.width as i64,
                hl == self.height as i64,
                cx == center.0 as i64 && cy == center.1 as i64 && rl == radius as i64,
                rl >= 1,
                len == self.pixels@.len(),
                len == (wl as int) * (hl as int),
                buf0 == old(self).pixels@,
                len == buf0.len(),
                0 <= y,
                y <= x + 2,
                x <= rl,
                -(rl as int + 1) - (y + 1) * (2 * rl as int + 5) <= d <= (rl as int + 1) + (y + 1)
                    * (2 * rl as int + 5),
                oct_pts(rl as int, 0, 1 - rl as int) == visited + oct_pts(
                    x as int,
                    y as int,
                    d as int,
                ),
                forall|k: int|
                    0 <= k < len ==> self.pixels@[k] == (if image_of_any(
                        visited,
                        cx as int,
                        cy as int,
                        k % (wl as int),
                        k / (wl as int),
                    ) {
                        color
                    } else {
                        buf0[k]
                    }),
            decreases x - y + 2,
        {
            let ghost pixels_before = self.pixels@;
            self.put_px_wide(cx + x, cy + y, color);
            self.put_px_wide(cx - x, cy + y, color);
            self.put_px_wide(cx + x, cy - y, color);
            self.put_px_wide(cx - x, cy - y, color);
            self.put_px_wide(cx + y, cy + x, color);
            self.put_px_wide(cx - y, cy + x, color);
            self.put_px_wide(cx + y, cy - x, color);
            self.put_px_wide(cx - y, cy - x, color);
            proof {
                let ghost vis2 = visited.push((x as int, y as int));
                assert forall|k: int| 0 <= k < len implies self.pixels@[k] == (if image_of_any(
                    vis2,
                    cx as int,
                    cy as int,
                    k % (wl as int),
                    k / (wl as int),
                ) {
                    color
                } else {
                    buf0[k]
                }) by {
                    let xx = k % (wl as int);
                    let yy = k / (wl as int);
                    lemma_mod_bound(k, wl as int);
                    lemma_div_pos_is_pos(k, wl as int);
                    lemma_fundamental_div_mod(k, wl as int);
                    assert(yy < hl) by (nonlinear_arith)
                        requires
                            (wl as int) * yy + xx == k,
                            xx >= 0,
                            k < len,
                            len <= (wl as int) * (hl as int),
                            wl > 0,
                    ;
                    lemma_eight_writes(pixels_before, self.pixels@, wl as int, hl as int, len,
                        cx as int, cy as int, x as int, y as int, k, color);
                    if is_image(cx as int, cy as int, x as int, y as int, xx, yy) {
                        assert(image_of_any(vis2, cx as int, cy as int, xx, yy)) by {
                            assert(vis2[vis2.len() - 1] == (x as int, y as int));
                        }
                        assert(self.pixels@[k] == color);
                    } else {
                        assert(image_of_any(vis2, cx as int, cy as int, xx, yy) == image_of_any(
                            visited,
                            cx as int,
                            cy as int,
                            xx,
                            yy,
                        )) by {
                            if image_of_any(vis2, cx as int, cy as int, xx, yy) {
                                let j = choose|j: int|
                                    0 <= j < vis2.len() && is_image(
                                        cx as int,
                                        cy as int,
                                        (#[trigger] vis2[j]).0,
                                        vis2[j].1,
                                        xx,
                                        yy,
                                    );
                                assert(j < visited.len());
                                assert(is_image(cx as int, cy as int, (visited[j]).0,
                                    visited[j].1, xx, yy));
                            }
                            if image_of_any(visited, cx as int, cy as int, xx, yy) {
                                let j = choose|j: int|
                                    0 <= j < visited.len() && is_image(
                                        cx as int,
                                        cy as int,
                                        (#[trigger] visited[j]).0,
                                        visited[j].1,
                                        xx,
                                        yy,
                                    );
                                assert(vis2[j] == visited[j]);
                            }
                        }
                        assert(self.pixels@[k] == pixels_before[k]);
                    }
                }
                visited = vis2;
            }
            proof {
                assert(oct_pts(x as int, y as int, d as int) == seq![(x as int, y as int)]
                    + (if d < 0 {
                    oct_pts(x as int, y as int + 1, d as int + 2 * y as int + 3)
                } else {
                    oct_pts(x as int - 1, y as int + 1, d as int + 2 * (y as int - x as int) + 5)
                }));
                assert(visited + (if d < 0 {
                    oct_pts(x as int, y as int + 1, d as int + 2 * y as int + 3)
                } else {
                    oct_pts(x as int - 1, y as int + 1, d as int + 2 * (y as int - x as int) + 5)
                }) =~= (visited.drop_last() + oct_pts(x as int, y as int, d as int)));
                assert((y as int + 2) * (2 * rl as int + 5) == (y as int + 1) * (2 * rl as int + 5)
                    + (2 * rl as int + 5)) by (nonlinear_arith);
            }
            proof {
                assert(0 <= (y as int + 1) * (2 * rl as int + 5) <= 0x2_0000_0000_0000_0000)
                    by (nonlinear_arith)
                    requires
                        0 <= y <= 0x8000_0002,
                        1 <= rl <= 0x8000_0000,
                ;
            }
            if d < 0 {
                d = d + 2 * (y as i128) + 3;
            } else {
                d = d + 2 * ((y as i128) - (x as i128)) + 5;
                x = x - 1;
            }
            y = y + 1;
        }
        proof {
            assert(oct_pts(x as int, y as int, d as int) =~= Seq::<(int, int)>::empty());
            assert(visited =~= oct_pts(rl as int, 0, 1 - rl as int));
            assert forall|k: int| 0 <= k < len implies self.pixels@[k] == circle_paint(
                buf0,
                wl as int,
                cx as int,
                cy as int,
                rl as int,
                color,
            )[k] by {
                let xx = k % (wl as int);
                let yy = k / (wl as int);
                assert(image_of_any(visited, cx as int, cy as int, xx, yy) == on_circle(cx as int,
                    cy as int, rl as int, xx, yy));
            }
            assert(self.pixels@ =~= circle_paint(buf0, wl as int, cx as int, cy as int, rl as int,
                color));
        }
    }
}

/// One bounds-checked write seen from a fixed pixel `k`: the pixel takes the
/// color exactly when it is the write's target, and keeps its value otherwise.
proof fn lemma_put_step(buf: Seq<u32>, w: int, h: int, len: int, tx: int, ty: int, k: int, c: u32)
    requires
        len == buf.len(),
        len == w * h,
        w > 0,
        0 <= k < len,
    ensures
        put_spec(buf, w, h, tx, ty, c).len() == len,
        (k % w == tx && k / w == ty) ==> put_spec(buf, w, h, tx, ty, c)[k] == c,
        !(k % w == tx && k / w == ty) ==> put_spec(buf, w, h, tx, ty, c)[k] == buf[k],
{
    lemma_mod_bound(k, w);
    lemma_div_pos_is_pos(k, w);
    lemma_fundamental_div_mod(k, w);
    assert(k / w < h) by (nonlinear_arith)
        requires
            w * (k / w) + k % w == k,
            k % w >= 0,
            k < len,
            len == w * h,
            w > 0,
    ;
    if k % w == tx && k / w == ty {
        assert(k == ty * w + tx) by (nonlinear_arith)
            requires
                k == w * (k / w) + k % w,
                k % w == tx,
                k / w == ty,
        ;
        lemma_row_major(w, h, tx, ty);
    } else {
        if 0 <= tx < w && 0 <= ty < h {
            lemma_row_major(w, h, tx, ty);
            lemma_coords_unique_at(w, h, k, tx, ty);
        }
    }
}

/// After the eight symmetric writes of one octant point, a pixel holds the
/// color when it is an image of the point, and its old value otherwise.
proof fn lemma_eight_writes(
    before: Seq<u32>,
    after: Seq<u32>,
    w: int,
    h: int,
    len: int,
    cx: int,
    cy: int,
    a: int,
    b: int,
    k: int,
    c: u32,
)
    requires
        0 <= k < len,
        len == before.len(),
        len == w * h,
        w > 0,
        after == put_spec(
            put_spec(
                put_spec(
                    put_spec(
                        put_spec(
                            put_spec(
                                put_spec(put_spec(before, w, h, cx + a, cy + b, c), w, h, cx - a,
                                    cy + b, c),
                                w,
                                h,
                                cx + a,
                                cy - b,
                                c,
                            ),
                            w,
                            h,
                            cx - a,
                            cy - b,
                            c,
                        ),
                        w,
                        h,
                        cx + b,
                        cy + a,
                        c,
                    ),
                    w,
                    h,
                    cx - b,
                    cy + a,
                    c,
                ),
                w,
                h,
                cx + b,
                cy - a,
                c,
            ),
            w,
            h,
            cx - b,
            cy - a,
            c,
        ),
    ensures
        is_image(cx, cy, a, b, k % w, k / w) ==> after[k] == c,
        !is_image(cx, cy, a, b, k % w, k / w) ==> after[k] == before[k],
{
    let s1 = put_spec(before, w, h, cx + a, cy + b, c);
    let s2 = put_spec(s1, w, h, cx - a, cy + b, c);
    let s3 = put_spec(s2, w, h, cx + a, cy - b, c);
    let s4 = put_spec(s3, w, h, cx - a, cy - b, c);
    let s5 = put_spec(s4, w, h, cx + b, cy + a, c);
    let s6 = put_spec(s5, w, h, cx - b, cy + a, c);
    let s7 = put_spec(s6, w, h, cx + b, cy - a, c);
    lemma_put_step(before, w, h, len, cx + a, cy + b, k, c);
    lemma_put_step(s1, w, h, len, cx - a, cy + b, k, c);
    lemma_put_step(s2, w, h, len, cx + a, cy - b, k, c);
    lemma_put_step(s3, w, h, len, cx - a, cy - b, k, c);
    lemma_put_step(s4, w, h, len, cx + b, cy + a, k, c);
    lemma_put_step(s5, w, h, len, cx - b, cy + a, k, c);
    lemma_put_step(s6, w, h, len, cx + b, cy - a, k, c);
    lemma_put_step(s7, w, h, len, cx - b, cy - a, k, c);
}

/// A pixel index whose coordinates differ from `(x, y)` is not the row-major
/// index of `(x, y)`.
proof fn lemma_coords_unique_at(w: int, h: int, k: int, x: int, y: int)
    requires
        w > 0,
        k >= 0,
        0 <= x < w,
        0 <= y < h,
        !(k % w == x && k / w == y),
    ensures
        k != y * w + x,
{
    lemma_row_major(w, h, x, y);
    if k == y * w + x {
        lemma_fundamental_div_mod(k, w);
        lemma_fundamental_div_mod_converse(k, w, y, x);
    }
}

/// The texture cell a disk pixel maps to: the pixel's offset from the disk
/// center, rotated by the spin angle, mapped linearly onto the image (the
/// rotated offset ranges over twice the radius either way).
pub open spec fn sphere_texel(
    tex: Texture,
    cx: int,
    cy: int,
    r: int,
    rot: int,
    x: int,
    y: int,
) -> u32 {
    let dx = x - cx;
    let dy = y - cy;
    let c = cos_fx(rot);
    let s = sin_fx(rot);
    let rx = tdiv(dx * c + dy * s, FP_ONE as int);
    let ry = tdiv(dy * c - dx * s, FP_ONE as int);
    let tx = ((rx + 2 * r) * tex.width) / (4 * r + 1);
    let ty = ((ry + 2 * r) * tex.height) / (4 * r + 1);
    tex.texel(tx, ty)
}

/// The buffer with the textured disk painted over it: every disk pixel takes
/// its mapped texture color, pixels outside the disk are untouched.
pub open spec fn sphere_paint(
    buf: Seq<u32>,
    w: int,
    tex: Texture,
    cx: int,
    cy: int,
    r: int,
    rot: int,
) -> Seq<u32> {
    Seq::new(
        buf.len(),
        |k: int|
            if in_disk(cx, cy, r, k % w, k / w) {
                sphere_texel(tex, cx, cy, r, rot, k % w, k / w)
            } else {
                buf[k]
            },
    )
}

/// One textured-disk pixel, computed.
fn sphere_pixel_at(tex: &Texture, cxl: i64, cyl: i64, rl: i64, rot: i64, x: i64, y: i64) -> (col:
    u32)
    requires
        tex.wf(),
        1 <= rl <= 0x8000_0000,
        -rl <= x - cxl <= rl,
        -rl <= y - cyl <= rl,
    ensures
        col == sphere_texel(*tex, cxl as int, cyl as int, rl as int, rot as int, x as int, y as int),
{
    let dx = x - cxl;
    let dy = y - cyl;
    let c = cos_fp(rot);
    let s = sin_fp(rot);
    proof {
        assert(-(rl * 0x1_0000) <= dx * c <= rl * 0x1_0000 && -(rl * 0x1_0000) <= dy * s <= rl
            * 0x1_0000 && -(rl * 0x1_0000) <= dy * c <= rl * 0x1_0000 && -(rl * 0x1_0000) <= dx * s
            <= rl * 0x1_0000 && rl * 0x1_0000 <= 0x8000_0000 * 0x1_0000) by (nonlinear_arith)
            requires
                -rl <= dx <= rl,
                -rl <= dy <= rl,
                -0x1_0000 <= c <= 0x1_0000,
                -0x1_0000 <= s <= 0x1_0000,
                1 <= rl <= 0x8000_0000,
        ;
        lemma_tdiv_bound(dx as int * c as int + dy as int * s as int, FP_ONE as int, 2 * rl
            * 0x1_0000);
        lemma_tdiv_bound(dy as int * c as int - dx as int * s as int, FP_ONE as int, 2 * rl
            * 0x1_0000);
        assert((2 * rl * 0x1_0000) / 0x1_0000 == 2 * rl) by (nonlinear_arith);
    }
    let rx = (dx * c + dy * s) / FP_ONE;
    let ry = (dy * c - dx * s) / FP_ONE;
    proof {
        assert(0 <= (rx + 2 * rl) * (tex.width as int) <= 0x2_0000_0000 * 0x1000
            && 0 <= (ry + 2 * rl) * (tex.height as int) <= 0x2_0000_0000 * 0x1000)
            by (nonlinear_arith)
            requires
                -2 * rl <= rx <= 2 * rl,
                -2 * rl <= ry <= 2 * rl,
                1 <= rl <= 0x8000_0000,
                1 <= tex.width <= 0x1000,
                1 <= tex.height <= 0x1000,
        ;
    }
    let tx = ((rx + 2 * rl) * tex.width as i64) / (4 * rl + 1);
    let ty = ((ry + 2 * rl) * tex.height as i64) / (4 * rl + 1);
    tex.sample(tx, ty)
}

impl FrameBuffer {
    /// Paint the textured disk of the given center and screen radius: each
    /// disk pixel samples the texture through an inverse planar mapping
    /// rotated by the spin angle. A radius below one paints nothing.
    pub fn textured_disk(&mut self, tex: &Texture, cx: i32, cy: i32, radius: i32, rotation: i64)
        requires
            old(self).wf(),
            tex.wf(),
        ensures
            final(self).wf(),
            final(self).width == old(self).width,
            final(self).height == old(self).height,
            final(self).pixels@ == sphere_paint(
                old(self).pixels@,
                old(self).width as int,
                *tex,
                cx as int,
                cy as int,
                radius as int,
                rotation as int,
            ),
    {
        let wl: i64 = self.width as i64;
        let hl: i64 = self.height as i64;
        let cxl: i64 = cx as i64;
        let cyl: i64 = cy as i64;
        let rl: i64 = radius as i64;
        let ghost len = self.pixels@.len() as int;
        let ghost buf0 = self.pixels@;
        if radius <= 0 {
            proof {
                assert(self.pixels@ =~= sphere_paint(buf0, wl as int, *tex, cxl as int, cyl as int,
                    rl as int, rotation as int));
            }
            return;
        }
        let ys: i64 = if cyl - rl > 0 { cyl - rl } else { 0 };
        let ye: i64 = if cyl + rl < hl - 1 { cyl + rl } else { hl - 1 };
        let mut y: i64 = ys;
        proof {
            assert forall|k: int| 0 <= k < len implies !(#[trigger] in_disk(
                cxl as int,
                cyl as int,
                rl as int,
                k % (wl as int),
                k / (wl as int),
            ) && k / (wl as int) < ys) by {
                lemma_mod_bound(k, wl as int);
                lemma_div_pos_is_pos(k, wl as int);
                if k / (wl as int) < ys && ys == cyl - rl {
                    lemma_disk_row_empty(cxl as int, cyl as int, rl as int, k % (wl as int),
                        k / (wl as int));
                }
            }
        }
        while y <= ye
            invariant
                self.wf(),
                self.width == old(self).width,
                self.height == old(self).height,
                tex.wf(),
                wl == self.width as i64,
                hl == self.height as i64,
                cxl == cx as i64 && cyl == cy as i64 && rl == radius as i64,
                rl >= 1,
                len == self.pixels@.len(),
                buf0 == old(self).pixels@,
                len == buf0.len(),
                ys <= y,
                ys == (if cyl - rl > 0 { cyl - rl } else { 0 }),
                ye == (if cyl + rl < hl - 1 { cyl + rl } else { hl - 1 }),
                forall|k: int|
                    0 <= k < len ==> self.pixels@[k] == (if in_disk(
                        cxl as int,
                        cyl as int,
                        rl as int,
                        k % (wl as int),
                        k / (wl as int),
                    ) && k / (wl as int) < y {
                        sphere_texel(*tex, cxl as int, cyl as int, rl as int, rotation as int,
                            k % (wl as int), k / (wl as int))
                    } else {
                        buf0[k]
                    }),
            decreases ye - y + 1,
        {
            let dy: i64 = y - cyl;
            proof {
                assert(0 <= dy * dy <= rl * rl && rl * rl <= 0x4000_0000_0000_0000)
                    by (nonlinear_arith)
                    requires
                        -rl <= dy <= rl,
                        1 <= rl < 0x8000_0000,
                ;
            }
            let sq: u128 = (rl * rl - dy * dy) as u128;
            let hw128: u128 = isqrt(sq);
            proof {
                assert(hw128 <= rl) by (nonlinear_arith)
                    requires
                        hw128 * hw128 <= sq,
                        sq <= rl * rl,
                        rl >= 1,
                        hw128 >= 0,
                ;
            }
            let hw: i64 = hw128 as i64;
            let xs: i64 = if cxl - hw > 0 { cxl - hw } else { 0 };
            let xe: i64 = if cxl + hw < wl - 1 { cxl + hw } else { wl - 1 };
            let mut x: i64 = xs;
            proof {
                assert forall|k: int|
                    0 <= k < len && k / (wl as int) == y && #[trigger] in_disk(
                        cxl as int,
                        cyl as int,
                        rl as int,
                        k % (wl as int),
                        k / (wl as int),
                    ) implies !(k % (wl as int) < xs) by {
                    lemma_mod_bound(k, wl as int);
                    lemma_div_pos_is_pos(k, wl as int);
                    lemma_disk_row(cxl as int, cyl as int, rl as int, hw as int, y as int,
                        k % (wl as int));
                }
            }
            while x <= xe
                invariant
                    self.wf(),
                    self.width == old(self).width,
                    self.height == old(self).height,
                    tex.wf(),
                    wl == self.width as i64,
                    hl == self.height as i64,
                    cxl == cx as i64 && cyl == cy as i64 && rl == radius as i64,
                    rl >= 1,
                    len == self.pixels@.len(),
                    len == buf0.len(),
                    ys <= y,
                    y <= ye,
                    0 <= y < hl,
                    ye == (if cyl + rl < hl - 1 { cyl + rl } else { hl - 1 }),
                    dy == y - cyl,
                    -rl <= dy <= rl,
                    0 <= hw <= rl,
                    hw * hw <= rl * rl - dy * dy,
                    rl * rl - dy * dy < (hw + 1) * (hw + 1),
                    xs <= x,
                    xs == (if cxl - hw > 0 { cxl - hw } else { 0 }),
                    xe == (if cxl + hw < wl - 1 { cxl + hw } else { wl - 1 }),
                    forall|k: int|
                        0 <= k < len ==> self.pixels@[k] == (if in_disk(
                            cxl as int,
                            cyl as int,
                            rl as int,
                            k % (wl as int),
                            k / (wl as int),
                        ) && (k / (wl as int) < y || (k / (wl as int) == y && k % (wl as int)
                            < x)) {
                            sphere_texel(*tex, cxl as int, cyl as int, rl as int, rotation as int,
                                k % (wl as int), k / (wl as int))
                        } else {
                            buf0[k]
                        }),
                decreases xe - x + 1,
            {
                proof {
                    lemma_row_major(wl as int, hl as int, x as int, y as int);
                    lemma_disk_row(cxl as int, cyl as int, rl as int, hw as int, y as int,
                        x as int);
                    assert forall|k: int|
                        #![trigger k % (wl as int)]
                        0 <= k < len && k != (y as int) * (wl as int) + (x as int)
                        implies (k % (wl as int) != x as int || k / (wl as int)
                        != y as int) by {
                        lemma_coords_unique(wl as int, k, (y as int) * (wl as int) + (x as int));
                        lemma_row_major(wl as int, hl as int, x as int, y as int);
                    }
                }
                let col = sphere_pixel_at(tex, cxl, cyl, rl, rotation, x, y);
                let idx: usize = (y as usize) * self.width + (x as usize);
                self.pixels[idx] = col;
                x = x + 1;
            }
            proof {
                assert forall|k: int| 0 <= k < len implies self.pixels@[k] == (if in_disk(
                    cxl as int,
                    cyl as int,
                    rl as int,
                    k % (wl as int),
                    k / (wl as int),
                ) && k / (wl as int) < y + 1 {
                    sphere_texel(*tex, cxl as int, cyl as int, rl as int, rotation as int,
                        k % (wl as int), k / (wl as int))
                } else {
                    buf0[k]
                }) by {
                    let xx = k % (wl as int);
                    let yy = k / (wl as int);
                    lemma_mod_bound(k, wl as int);
                    lemma_div_pos_is_pos(k, wl as int);
                    if yy == y as int && in_disk(cxl as int, cyl as int, rl as int, xx, yy) {
                        lemma_disk_row(cxl as int, cyl as int, rl as int, hw as int, y as int,
                            xx);
                        if xx >= x {
                            assert(xx <= cxl + hw);
                            assert(xx < wl as int);
                            assert(false);
                        }
                    }
                }
            }
            y = y + 1;
        }
        proof {
            assert forall|k: int| 0 <= k < len implies self.pixels@[k] == (if in_disk(
                cxl as int,
                cyl as int,
                rl as int,
                k % (wl as int),
                k / (wl as int),
            ) {
                sphere_texel(*tex, cxl as int, cyl as int, rl as int, rotation as int,
                    k % (wl as int), k / (wl as int))
            } else {
                buf0[k]
            }) by {
                let xx = k % (wl as int);
                let yy = k / (wl as int);
                lemma_mod_bound(k, wl as int);
                lemma_div_pos_is_pos(k, wl as int);
                if in_disk(cxl as int, cyl as int, rl as int, xx, yy) && !(yy < y) {
                    lemma_fundamental_div_mod(k, wl as int);
                    assert(yy < hl) by (nonlinear_arith)
                        requires
                            (wl as int) * yy + xx == k,
                            xx >= 0,
                            k < len,
                            len <= (wl as int) * (hl as int),
                            wl > 0,
                    ;
                    lemma_disk_row_empty(cxl as int, cyl as int, rl as int, xx, yy);
                    assert(false);
                }
            }
            assert(self.pixels@ =~= sphere_paint(buf0, wl as int, *tex, cxl as int, cyl as int,
                rl as int, rotation as int));
        }
    }
}

} // verus!
