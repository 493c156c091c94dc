use vstd::prelude::*;
use vstd::arithmetic::div_mod::{lemma_fundamental_div_mod, lemma_fundamental_div_mod_converse};
use crate::texture::{scale_round, scale_round_exec, Texture};
use crate::types::{channel, Rect, Rgba, Vec2i};

verus! {

/// Source-over compositing of one premultiplied channel: the source byte plus the
/// destination byte scaled by the source's transparency, rounded, saturating at 255.
pub open spec fn over(s: u8, d: u8, src_alpha: u8) -> u8 {
    let v = s + scale_round(d, (255 - src_alpha) as u8);
    if v > 255 {
        255u8
    } else {
        v as u8
    }
}

/// What a screen shows: its pixel bytes (row-major, `depth` bytes per pixel),
/// its size, and the world position of its top-left corner.
pub struct ScreenView {
    pub pixels: Seq<u8>,
    pub width: nat,
    pub height: nat,
    pub depth: nat,
    pub camera: Vec2i,
}

impl ScreenView {
    pub open spec fn wf(&self) -> bool {
        &&& self.depth == 4
        &&& self.pixels.len() == self.width * self.height * self.depth
        &&& self.width <= u16::MAX
        &&& self.height <= u16::MAX
    }

    pub open spec fn in_bounds(&self, x: int, y: int) -> bool {
        0 <= x < self.width && 0 <= y < self.height
    }

    /// Channel `c` of the pixel at framebuffer position `(x, y)`.
    pub open spec fn byte_at(&self, x: int, y: int, c: int) -> u8 {
        self.pixels[(y * self.width + x) * 4 + c]
    }

    /// Same size and camera; pixels may differ.
    pub open spec fn same_frame(&self, other: ScreenView) -> bool {
        &&& self.width == other.width
        &&& self.height == other.height
        &&& self.depth == other.depth
        &&& self.camera == other.camera
        &&& self.pixels.len() == other.pixels.len()
    }
}

proof fn lemma_pixel_index(w: int, h: int, x: int, y: int, c: int)
    requires
        0 <= x < w,
        0 <= y < h,
        0 <= c < 4,
    ensures
        0 <= (y * w + x) * 4 + c < w * h * 4,
{
    assert(0 <= y * w) by (nonlinear_arith)
        requires
            0 <= y,
            0 <= w,
    ;
    assert((y + 1) * w <= h * w) by (nonlinear_arith)
        requires
            y + 1 <= h,
            0 <= w,
    ;
    assert((y + 1) * w == y * w + w) by (nonlinear_arith);
    assert(h * w == w * h) by (nonlinear_arith);
}

/// Distinct pixels own disjoint bytes.
proof fn lemma_pixels_disjoint(w: int, x: int, y: int, x2: int, y2: int, c: int)
    requires
        0 <= x < w,
        0 <= x2 < w,
        0 <= y,
        0 <= y2,
        0 <= c < 4,
        x != x2 || y != y2,
    ensures
        (y2 * w + x2) * 4 + c < (y * w + x) * 4 || (y2 * w + x2) * 4 + c >= (y * w + x) * 4 + 4,
{
    let q = y * w + x;
    let q2 = y2 * w + x2;
    if y == y2 {
        assert(q != q2);
    } else if y < y2 {
        assert(y * w + w <= y2 * w) by (nonlinear_arith)
            requires
                y + 1 <= y2,
                0 <= w,
        ;
        assert(q < q2);
    } else {
        assert(y2 * w + w <= y * w) by (nonlinear_arith)
            requires
                y2 + 1 <= y,
                0 <= w,
        ;
        assert(q2 < q);
    }
}

/// Does a `from.w` by `from.h` block with its top-left corner at framebuffer
/// position `(tx, ty)` cover pixel `(x, y)`?
pub open spec fn covers(tx: int, ty: int, from: Rect, x: int, y: int) -> bool {
    tx <= x < tx + from.w && ty <= y < ty + from.h
}

/// Byte `c` of pixel `(x, y)` after compositing the `from` block of `src` over the
/// screen `old` at world position `to`.
pub open spec fn blit_byte(old: ScreenView, src: Texture, from: Rect, to: Vec2i, x: int, y: int, c: int) -> u8 {
    let tx = to.0 - old.camera.0;
    let ty = to.1 - old.camera.1;
    if covers(tx, ty, from, x, y) {
        let sx = from.x + (x - tx);
        let sy = from.y + (y - ty);
        over(src.byte_at(sx, sy, c), old.byte_at(x, y, c), src.byte_at(sx, sy, 3))
    } else {
        old.byte_at(x, y, c)
    }
}

/// Byte `c` of pixel `(x, y)` after filling the world rectangle `r` of screen
/// `old` with `col`.
pub open spec fn fill_byte(old: ScreenView, r: Rect, col: Rgba, x: int, y: int, c: int) -> u8 {
    if covers(r.x - old.camera.0, r.y - old.camera.1, r, x, y) {
        channel(col, c)
    } else {
        old.byte_at(x, y, c)
    }
}

/// The whole screen after compositing the `from` block of `src` at world
/// position `to`.
pub open spec fn blit_view(old: ScreenView, src: Texture, from: Rect, to: Vec2i) -> ScreenView {
    ScreenView {
        pixels: Seq::new(
            old.pixels.len(),
            |i: int| blit_byte(old, src, from, to, (i / 4) % (old.width as int), (i / 4) / (old.width as int), i % 4),
        ),
        ..old
    }
}

/// Byte `(y * width + x) * 4 + c` names pixel `(x, y)`, channel `c`, and no other.
proof fn lemma_decode_index(w: int, x: int, y: int, c: int)
    requires
        0 <= x < w,
        0 <= y,
        0 <= c < 4,
    ensures
        ((y * w + x) * 4 + c) / 4 == y * w + x,
        ((y * w + x) * 4 + c) % 4 == c,
        (y * w + x) % w == x,
        (y * w + x) / w == y,
{
    lemma_fundamental_div_mod_converse((y * w + x) * 4 + c, 4, y * w + x, c);
    lemma_fundamental_div_mod_converse(y * w + x, w, y, x);
}

/// Every byte of a well-formed view belongs to some in-bounds pixel.
proof fn lemma_encode_index(v: ScreenView, i: int)
    requires
        v.wf(),
        0 <= i < v.pixels.len(),
    ensures
        v.in_bounds((i / 4) % (v.width as int), (i / 4) / (v.width as int)),
        i == (((i / 4) / (v.width as int)) * v.width + (i / 4) % (v.width as int)) * 4 + i % 4,
        0 <= i % 4 < 4,
{
    let w = v.width as int;
    let q = i / 4;
    lemma_fundamental_div_mod(i, 4);
    assert(w > 0) by (nonlinear_arith)
        requires
            0 <= i < v.pixels.len(),
            v.pixels.len() == w * v.height * 4,
    ;
    lemma_fundamental_div_mod(q, w);
    assert(0 <= q) by (nonlinear_arith)
        requires
            q == i / 4,
            0 <= i,
    ;
    assert(q < w * v.height) by (nonlinear_arith)
        requires
            i == 4 * q + i % 4,
            0 <= i % 4,
            i < w * v.height * 4,
    ;
    assert(q / w < v.height as int) by (nonlinear_arith)
        requires
            q == w * (q / w) + q % w,
            0 <= q % w,
            q < w * v.height,
            w > 0,
    ;
    assert(0 <= q / w) by (nonlinear_arith)
        requires
            0 <= q,
            w > 0,
    ;
}

/// Two views of one frame that agree on every pixel are the same view.
pub proof fn lemma_view_ext(a: ScreenView, b: ScreenView)
    requires
        a.wf(),
        a.same_frame(b),
        forall|x: int, y: int, c: int| a.in_bounds(x, y) && 0 <= c < 4 ==> #[trigger] a.byte_at(x, y, c) == b.byte_at(x, y, c),
    ensures
        a == b,
{
    assert forall|i: int| 0 <= i < a.pixels.len() implies a.pixels[i] == b.pixels[i] by {
        lemma_encode_index(a, i);
        let w = a.width as int;
        assert(a.byte_at((i / 4) % w, (i / 4) / w, i % 4) == b.byte_at((i / 4) % w, (i / 4) / w, i % 4));
    }
    assert(a.pixels =~= b.pixels);
}

/// Pixel by pixel, `blit_view` is `blit_byte`.
pub proof fn lemma_blit_view_bytes(old: ScreenView, src: Texture, from: Rect, to: Vec2i)
    requires
        old.wf(),
    ensures
        blit_view(old, src, from, to).wf(),
        blit_view(old, src, from, to).same_frame(old),
        forall|x: int, y: int, c: int| old.in_bounds(x, y) && 0 <= c < 4 ==> #[trigger] blit_view(old, src, from, to).byte_at(x, y, c)
            == blit_byte(old, src, from, to, x, y, c),
{
    assert forall|x: int, y: int, c: int| old.in_bounds(x, y) && 0 <= c < 4 implies #[trigger] blit_view(old, src, from, to).byte_at(
        x,
        y,
        c,
    ) == blit_byte(old, src, from, to, x, y, c) by {
        lemma_decode_index(old.width as int, x, y, c);
        lemma_pixel_index(old.width as int, old.height as int, x, y, c);
    }
}

/// Absolute value.
pub open spec fn abs(v: int) -> int {
    if v < 0 {
        -v
    } else {
        v
    }
}

/// Position and error term of Bresenham's walk from `(x0, y0)` toward `(x1, y1)`
/// after `k` steps. Each step moves one pixel along x, along y, or along both.
pub open spec fn bresenham(x0: int, y0: int, x1: int, y1: int, k: nat) -> (int, int, int)
    decreases k,
{
    let dx = abs(x1 - x0);
    let dy = -abs(y1 - y0);
    if k == 0 {
        (x0, y0, dx + dy)
    } else {
        let (x, y, err) = bresenham(x0, y0, x1, y1, (k - 1) as nat);
        let e2 = 2 * err;
        let sx = if x0 < x1 {
            1
        } else {
            -1
        };
        let sy = if y0 < y1 {
            1
        } else {
            -1
        };
        let (nx, err1) = if dy <= e2 {
            (x + sx, err + dy)
        } else {
            (x, err)
        };
        let (ny, err2) = if e2 <= dx {
            (y + sy, err1 + dx)
        } else {
            (y, err1)
        };
        (nx, ny, err2)
    }
}

/// Is `(px, py)` one of the first `k` points of the walk?
pub open spec fn walked(x0: int, y0: int, x1: int, y1: int, k: nat, px: int, py: int) -> bool {
    exists|j: nat| j < k && #[trigger] bresenham(x0, y0, x1, y1, j).0 == px && bresenham(x0, y0, x1, y1, j).1 == py
}

/// Is `(px, py)` a point of the walk up to and including the first time it
/// reaches `(x1, y1)`? Both end points are drawn.
pub open spec fn on_line(x0: int, y0: int, x1: int, y1: int, px: int, py: int) -> bool {
    exists|k: nat|
        #![trigger bresenham(x0, y0, x1, y1, k)]
        (forall|j: nat| j < k ==> (#[trigger] bresenham(x0, y0, x1, y1, j).0 != x1 || bresenham(x0, y0, x1, y1, j).1 != y1))
            && bresenham(x0, y0, x1, y1, k).0 == px && bresenham(x0, y0, x1, y1, k).1 == py
}

/// Byte `c` of pixel `(x, y)` after drawing a line of `col` between world points
/// `p0` and `p1` on screen `old`.
pub open spec fn line_byte(old: ScreenView, p0: Vec2i, p1: Vec2i, col: Rgba, x: int, y: int, c: int) -> u8 {
    if on_line(p0.0 - old.camera.0, p0.1 - old.camera.1, p1.0 - old.camera.0, p1.1 - old.camera.1, x, y) {
        channel(col, c)
    } else {
        old.byte_at(x, y, c)
    }
}

/// One step of the walk, counted as `a` steps along x and `b` along y so far, never
/// passes the end point and always moves.
proof fn lemma_bresenham_step(dx: int, dy: int, a: int, b: int)
    requires
        0 <= a <= dx,
        0 <= b <= dy,
        a != dx || b != dy,
    ensures
        ({
            let err = dx - dy + b * dx - a * dy;
            &&& (-dy <= 2 * err ==> a < dx)
            &&& (2 * err <= dx ==> b < dy)
            &&& (-dy <= 2 * err || 2 * err <= dx)
        }),
{
    let err = dx - dy + b * dx - a * dy;
    if a == dx {
        assert(2 * err < -dy) by (nonlinear_arith)
            requires
                err == dx - dy + b * dx - a * dy,
                a == dx,
                0 <= b < dy,
                0 <= dx,
        ;
    }
    if b == dy {
        assert(2 * err > dx) by (nonlinear_arith)
            requires
                err == dx - dy + b * dx - a * dy,
                b == dy,
                0 <= a < dx,
                0 <= dy,
        ;
    }
}

/// The whole screen after drawing a line of `col` from world point `p0` toward `p1`.
pub open spec fn line_view(old: ScreenView, p0: Vec2i, p1: Vec2i, col: Rgba) -> ScreenView {
    ScreenView {
        pixels: Seq::new(
            old.pixels.len(),
            |i: int| line_byte(old, p0, p1, col, (i / 4) % (old.width as int), (i / 4) / (old.width as int), i % 4),
        ),
        ..old
    }
}

/// The whole screen after outlining world rectangle `r`: its top, bottom, left and
/// right edges drawn as lines, in that order.
pub open spec fn outline_view(old: ScreenView, r: Rect, col: Rgba) -> ScreenView {
    let right = (r.x + r.w) as i32;
    let bottom = (r.y + r.h) as i32;
    let s1 = line_view(old, Vec2i(r.x, r.y), Vec2i(right, r.y), col);
    let s2 = line_view(s1, Vec2i(r.x, bottom), Vec2i(right, bottom), col);
    let s3 = line_view(s2, Vec2i(r.x, r.y), Vec2i(r.x, bottom), col);
    line_view(s3, Vec2i(right, r.y), Vec2i(right, bottom), col)
}

/// Pixel by pixel, `line_view` is `line_byte`.
pub proof fn lemma_line_view_bytes(old: ScreenView, p0: Vec2i, p1: Vec2i, col: Rgba)
    requires
        old.wf(),
    ensures
        line_view(old, p0, p1, col).wf(),
        line_view(old, p0, p1, col).same_frame(old),
        forall|x: int, y: int, c: int| old.in_bounds(x, y) && 0 <= c < 4 ==> #[trigger] line_view(old, p0, p1, col).byte_at(x, y, c)
            == line_byte(old, p0, p1, col, x, y, c),
{
    assert forall|x: int, y: int, c: int| old.in_bounds(x, y) && 0 <= c < 4 implies #[trigger] line_view(old, p0, p1, col).byte_at(
        x,
        y,
        c,
    ) == line_byte(old, p0, p1, col, x, y, c) by {
        lemma_decode_index(old.width as int, x, y, c);
        lemma_pixel_index(old.width as int, old.height as int, x, y, c);
    }
}

/// A destination block that lies entirely left of, right of, above or below the
/// screen leaves every pixel as it was.
pub proof fn lemma_offscreen_blit_unchanged(s: ScreenView, src: Texture, from: Rect, to: Vec2i)
    requires
        s.wf(),
        ({
            let tx = to.0 - s.camera.0;
            let ty = to.1 - s.camera.1;
            tx + from.w <= 0 || tx >= s.width || ty + from.h <= 0 || ty >= s.height
        }),
    ensures
        blit_view(s, src, from, to) == s,
{
    lemma_blit_view_bytes(s, src, from, to);
    lemma_view_ext(blit_view(s, src, from, to), s);
}

/// Outside the destination block no pixel changes, and inside it only the source
/// texels that land on the screen are read: two textures that agree there give
/// the same result, whatever the clipped-away part holds.
pub proof fn lemma_blit_reads_only_visible(s: ScreenView, src1: Texture, src2: Texture, from: Rect, to: Vec2i)
    requires
        s.wf(),
        ({
            let tx = to.0 - s.camera.0;
            let ty = to.1 - s.camera.1;
            forall|x: int, y: int, c: int|
                s.in_bounds(x, y) && covers(tx, ty, from, x, y) && 0 <= c < 4 ==> #[trigger] src1.byte_at(
                    from.x + (x - tx),
                    from.y + (y - ty),
                    c,
                ) == src2.byte_at(from.x + (x - tx), from.y + (y - ty), c)
        }),
    ensures
        blit_view(s, src1, from, to) == blit_view(s, src2, from, to),
        forall|x: int, y: int, c: int|
            s.in_bounds(x, y) && 0 <= c < 4 && !covers(to.0 - s.camera.0, to.1 - s.camera.1, from, x, y)
                ==> #[trigger] blit_view(s, src1, from, to).byte_at(x, y, c) == s.byte_at(x, y, c),
{
    lemma_blit_view_bytes(s, src1, from, to);
    lemma_blit_view_bytes(s, src2, from, to);
    let tx = to.0 - s.camera.0;
    let ty = to.1 - s.camera.1;
    assert forall|x: int, y: int, c: int| s.in_bounds(x, y) && 0 <= c < 4 implies #[trigger] blit_view(
        s,
        src1,
        from,
        to,
    ).byte_at(x, y, c) == blit_view(s, src2, from, to).byte_at(x, y, c) by {
        if covers(tx, ty, from, x, y) {
            assert(src1.byte_at(from.x + (x - tx), from.y + (y - ty), c) == src2.byte_at(from.x + (x - tx), from.y + (y - ty), c));
            assert(src1.byte_at(from.x + (x - tx), from.y + (y - ty), 3) == src2.byte_at(from.x + (x - tx), from.y + (y - ty), 3));
        }
    }
    lemma_view_ext(blit_view(s, src1, from, to), blit_view(s, src2, from, to));
}

/// A fully opaque source byte replaces the destination: the result is the source.
pub proof fn lemma_over_opaque(s: u8, d: u8)
    ensures
        over(s, d, 255) == s,
{
    assert(scale_round(d, 0) == 0) by (nonlinear_arith);
}

/// A fully transparent source pixel `(0, 0, 0, 0)` is the identity: every
/// destination channel stays as it was.
pub proof fn lemma_over_transparent(d: u8)
    ensures
        over(0, d, 0) == d,
{
    assert((2 * (d * 255) + 255) / 510 == d as int) by (nonlinear_arith)
        requires
            0 <= d <= 255,
    ;
}

/// Where the source texel is fully opaque, the blitted pixel becomes that texel;
/// where it is `(0, 0, 0, 0)`, the pixel keeps its old value.
pub proof fn lemma_blit_opaque_and_transparent(s: ScreenView, src: Texture, from: Rect, to: Vec2i, x: int, y: int, c: int)
    requires
        s.wf(),
        s.in_bounds(x, y),
        0 <= c < 4,
    ensures
        ({
            let tx = to.0 - s.camera.0;
            let ty = to.1 - s.camera.1;
            let sx = from.x + (x - tx);
            let sy = from.y + (y - ty);
            &&& covers(tx, ty, from, x, y) && src.byte_at(sx, sy, 3) == 255 ==> blit_view(s, src, from, to).byte_at(x, y, c)
                == src.byte_at(sx, sy, c)
            &&& covers(tx, ty, from, x, y) && src.byte_at(sx, sy, c) == 0 && src.byte_at(sx, sy, 3) == 0 ==> blit_view(
                s,
                src,
                from,
                to,
            ).byte_at(x, y, c) == s.byte_at(x, y, c)
        }),
{
    lemma_blit_view_bytes(s, src, from, to);
    lemma_over_opaque(src.byte_at(from.x + (x - (to.0 - s.camera.0)), from.y + (y - (to.1 - s.camera.1)), c), s.byte_at(x, y, c));
    lemma_over_transparent(s.byte_at(x, y, c));
}

fn over_exec(s: u8, d: u8, src_alpha: u8) -> (r: u8)
    ensures
        r == over(s, d, src_alpha),
{
    s.saturating_add(scale_round_exec(d, 255 - src_alpha))
}

pub(crate) fn clamp(v: i64, hi: i64) -> (r: i64)
    requires
        0 <= hi,
    ensures
        r == if v < 0 {
            0
        } else if v > hi {
            hi
        } else {
            v
        },
{
    if v < 0 {
        0
    } else if v > hi {
        hi
    } else {
        v
    }
}

/// A mutable view over a borrowed framebuffer for one frame, plus the camera
/// position the frame is drawn from.
pub struct Screen<'fb> {
    framebuffer: &'fb mut [u8],
    width: usize,
    height: usize,
    depth: usize,
    position: Vec2i,
}

impl<'fb> View for Screen<'fb> {
    type V = ScreenView;

    closed spec fn view(&self) -> ScreenView {
        ScreenView {
            pixels: self.framebuffer@,
            width: self.width as nat,
            height: self.height as nat,
            depth: self.depth as nat,
            camera: self.position,
        }
    }
}

impl<'fb> Screen<'fb> {
    /// Wraps this frame's framebuffer, `width * height` pixels of `depth` (4) bytes.
    pub fn wrap(framebuffer: &'fb mut [u8], width: usize, height: usize, depth: usize, position: Vec2i) -> (r: Self)
        requires
            depth == 4,
            old(framebuffer)@.len() == width * height * depth,
            width <= u16::MAX,
            height <= u16::MAX,
        ensures
            r@.wf(),
            r@.pixels == old(framebuffer)@,
            r@.width == width,
            r@.height == height,
            r@.camera == position,
    {
        Screen { framebuffer, width, height, depth, position }
    }

    /// The world-space rectangle this screen shows.
    pub fn bounds(&self) -> (r: Rect)
        requires
            self@.wf(),
        ensures
            r == (Rect {
                x: self@.camera.0,
                y: self@.camera.1,
                w: self@.width as u16,
                h: self@.height as u16,
            }),
    {
        Rect { x: self.position.0, y: self.position.1, w: self.width as u16, h: self.height as u16 }
    }

    /// Channel values of the pixel at `(x, y)`.
    fn get_pixel(&self, x: usize, y: usize) -> (r: Rgba)
        requires
            self@.wf(),
            self@.in_bounds(x as int, y as int),
        ensures
            forall|c: int| 0 <= c < 4 ==> channel(r, c) == #[trigger] self@.byte_at(x as int, y as int, c),
    {
        proof {
            lemma_pixel_index(self.width as int, self.height as int, x as int, y as int, 3);
        }
        let len = self.framebuffer.len();
        let i = (y * self.width + x) * 4;
        Rgba(self.framebuffer[i], self.framebuffer[i + 1], self.framebuffer[i + 2], self.framebuffer[i + 3])
    }

    /// Overwrites the pixel at `(x, y)`.
    fn put_pixel(&mut self, x: usize, y: usize, col: Rgba)
        requires
            old(self)@.wf(),
            old(self)@.in_bounds(x as int, y as int),
        ensures
            final(self)@.wf(),
            final(self)@.same_frame(old(self)@),
            forall|x2: int, y2: int, c: int|
                old(self)@.in_bounds(x2, y2) && 0 <= c < 4 ==> #[trigger] final(self)@.byte_at(x2, y2, c) == if x2
                    == x && y2 == y {
                    channel(col, c)
                } else {
                    old(self)@.byte_at(x2, y2, c)
                },
    {
        proof {
            lemma_pixel_index(self.width as int, self.height as int, x as int, y as int, 3);
        }
        let len = self.framebuffer.len();
        let i = (y * self.width + x) * 4;
        self.framebuffer[i] = col.0;
        self.framebuffer[i + 1] = col.1;
        self.framebuffer[i + 2] = col.2;
        self.framebuffer[i + 3] = col.3;
        proof {
            assert forall|x2: int, y2: int, c: int|
                old(self)@.in_bounds(x2, y2) && 0 <= c < 4 implies #[trigger] self@.byte_at(x2, y2, c) == if x2 == x
                    && y2 == y {
                    channel(col, c)
                } else {
                    old(self)@.byte_at(x2, y2, c)
                } by {
                lemma_pixel_index(self.width as int, self.height as int, x2, y2, c);
                if x2 != x || y2 != y {
                    lemma_pixels_disjoint(self.width as int, x as int, y as int, x2, y2, c);
                } else {
                    assert((y2 * self.width + x2) * 4 + c == i + c);
                }
            }
        }
    }

    /// Fills the world rectangle `r` (clipped to the screen) with `col`, an
    /// overwrite rather than a blend.
    pub fn rect(&mut self, r: Rect, col: Rgba)
        requires
            old(self)@.wf(),
        ensures
            final(self)@.wf(),
            final(self)@.same_frame(old(self)@),
            forall|x: int, y: int, c: int|
                old(self)@.in_bounds(x, y) && 0 <= c < 4 ==> #[trigger] final(self)@.byte_at(x, y, c) == fill_byte(
                    old(self)@,
                    r,
                    col,
                    x,
                    y,
                    c,
                ),
    {
        let ghost start = self@;
        let rx = r.x as i64 - self.position.0 as i64;
        let ry = r.y as i64 - self.position.1 as i64;
        let w = self.width as i64;
        let h = self.height as i64;
        let x0 = clamp(rx, w) as usize;
        let x1 = clamp(rx + r.w as i64, w) as usize;
        let y0 = clamp(ry, h) as usize;
        let y1 = clamp(ry + r.h as i64, h) as usize;
        let mut y = y0;
        while y < y1
            invariant
                self@.wf(),
                self@.same_frame(start),
                start.camera == self.position,
                start.width == w,
                start.height == h,
                rx == r.x - start.camera.0,
                ry == r.y - start.camera.1,
                x0 as int == if rx < 0 { 0 } else if rx > w { w } else { rx },
                x1 as int == if rx + r.w < 0 { 0 } else if rx + r.w > w { w as int } else { rx + r.w },
                y0 as int == if ry < 0 { 0 } else if ry > h { h } else { ry },
                y1 as int == if ry + r.h < 0 { 0 } else if ry + r.h > h { h as int } else { ry + r.h },
                y0 <= y,
                y1 <= h,
                forall|x2: int, y2: int, c: int|
                    start.in_bounds(x2, y2) && 0 <= c < 4 ==> #[trigger] self@.byte_at(x2, y2, c) == if y2 < y {
                        fill_byte(start, r, col, x2, y2, c)
                    } else {
                        start.byte_at(x2, y2, c)
                    },
            decreases y1 - y,
        {
            let mut x = x0;
            while x < x1
                invariant
                    self@.wf(),
                    self@.same_frame(start),
                    start.width == w,
                    start.height == h,
                    rx == r.x - start.camera.0,
                    ry == r.y - start.camera.1,
                    x0 as int == if rx < 0 { 0 } else if rx > w { w } else { rx },
                    x1 as int == if rx + r.w < 0 { 0 } else if rx + r.w > w { w as int } else { rx + r.w },
                    y0 as int == if ry < 0 { 0 } else if ry > h { h } else { ry },
                    y1 as int == if ry + r.h < 0 { 0 } else if ry + r.h > h { h as int } else { ry + r.h },
                    y0 <= y < y1,
                    x0 <= x,
                    forall|x2: int, y2: int, c: int|
                        start.in_bounds(x2, y2) && 0 <= c < 4 ==> #[trigger] self@.byte_at(x2, y2, c) == if y2 < y || (y2
                            == y && x0 <= x2 < x) {
                            fill_byte(start, r, col, x2, y2, c)
                        } else {
                            start.byte_at(x2, y2, c)
                        },
                decreases x1 - x,
            {
                self.put_pixel(x, y, col);
                x += 1;
            }
            y += 1;
        }
    }

    /// Composites the `from` block of `src` over the screen with its top-left corner
    /// at world position `to`, using source-over with premultiplied alpha. Only the
    /// part that falls on the screen is read or written.
    pub fn bitblt(&mut self, src: &Texture, from: Rect, to: Vec2i)
        requires
            old(self)@.wf(),
            src.wf(),
            src.depth == 4,
            0 <= from.x,
            from.x + from.w <= src.width,
            0 <= from.y,
            from.y + from.h <= src.height,
        ensures
            final(self)@.wf(),
            final(self)@.same_frame(old(self)@),
            forall|x: int, y: int, c: int|
                old(self)@.in_bounds(x, y) && 0 <= c < 4 ==> #[trigger] final(self)@.byte_at(x, y, c) == blit_byte(
                    old(self)@,
                    *src,
                    from,
                    to,
                    x,
                    y,
                    c,
                ),
            final(self)@ == blit_view(old(self)@, *src, from, to),
    {
        let ghost start = self@;
        proof {
            lemma_blit_view_bytes(start, *src, from, to);
        }
        let tx = to.0 as i64 - self.position.0 as i64;
        let ty = to.1 as i64 - self.position.1 as i64;
        let w = self.width as i64;
        let h = self.height as i64;
        if tx + (from.w as i64) < 0 || w <= tx || ty + (from.h as i64) < 0 || h <= ty {
            proof {
                lemma_view_ext(self@, blit_view(start, *src, from, to));
            }
            return;
        }
        let x0 = clamp(tx, w) as usize;
        let x1 = clamp(tx + from.w as i64, w) as usize;
        let y0 = clamp(ty, h) as usize;
        let y1 = clamp(ty + from.h as i64, h) as usize;
        let mut y = y0;
        while y < y1
            invariant
                self@.wf(),
                self@.same_frame(start),
                src.wf(),
                src.depth == 4,
                0 <= from.x,
                from.x + from.w <= src.width,
                0 <= from.y,
                from.y + from.h <= src.height,
                start.width == w,
                start.height == h,
                tx == to.0 - start.camera.0,
                ty == to.1 - start.camera.1,
                x0 as int == if tx < 0 { 0 } else { tx },
                x1 as int == if tx + from.w > w { w as int } else { tx + from.w },
                y0 as int == if ty < 0 { 0 } else { ty },
                y1 as int == if ty + from.h > h { h as int } else { ty + from.h },
                y0 <= y,
                y1 <= h,
                x1 <= w,
                forall|x2: int, y2: int, c: int|
                    start.in_bounds(x2, y2) && 0 <= c < 4 ==> #[trigger] self@.byte_at(x2, y2, c) == if y2 < y {
                        blit_byte(start, *src, from, to, x2, y2, c)
                    } else {
                        start.byte_at(x2, y2, c)
                    },
            decreases y1 - y,
        {
            let sy = (from.y as i64 + (y as i64 - ty)) as usize;
            let mut x = x0;
            while x < x1
                invariant
                    self@.wf(),
                    self@.same_frame(start),
                    src.wf(),
                    src.depth == 4,
                    0 <= from.x,
                    from.x + from.w <= src.width,
                    0 <= from.y,
                    from.y + from.h <= src.height,
                    start.width == w,
                    start.height == h,
                    tx == to.0 - start.camera.0,
                    ty == to.1 - start.camera.1,
                    x0 as int == if tx < 0 { 0 } else { tx },
                    x1 as int == if tx + from.w > w { w as int } else { tx + from.w },
                    y0 as int == if ty < 0 { 0 } else { ty },
                    y1 as int == if ty + from.h > h { h as int } else { ty + from.h },
                    y0 <= y < y1,
                    x1 <= w,
                    sy == from.y + (y - ty),
                    x0 <= x,
                    forall|x2: int, y2: int, c: int|
                        start.in_bounds(x2, y2) && 0 <= c < 4 ==> #[trigger] self@.byte_at(x2, y2, c) == if y2 < y || (y2
                            == y && x0 <= x2 < x) {
                            blit_byte(start, *src, from, to, x2, y2, c)
                        } else {
                            start.byte_at(x2, y2, c)
                        },
                decreases x1 - x,
            {
                let sx = (from.x as i64 + (x as i64 - tx)) as usize;
                let s = src.pixel_at(sx, sy);
                let d = self.get_pixel(x, y);
                let blended = Rgba(
                    over_exec(s.0, d.0, s.3),
                    over_exec(s.1, d.1, s.3),
                    over_exec(s.2, d.2, s.3),
                    over_exec(s.3, d.3, s.3),
                );
                proof {
                    assert forall|c: int| 0 <= c < 4 implies channel(blended, c) == blit_byte(start, *src, from, to, x as int, y as int, c) by {
                        assert(channel(s, c) == src.byte_at(sx as int, sy as int, c));
                        assert(channel(s, 3) == src.byte_at(sx as int, sy as int, 3));
                        assert(channel(d, c) == self@.byte_at(x as int, y as int, c));
                    }
                }
                self.put_pixel(x, y, blended);
                x += 1;
            }
            y += 1;
        }
        proof {
            lemma_view_ext(self@, blit_view(start, *src, from, to));
        }
    }

    /// Draws a line of `col` from world point `p0` to `p1`, both ends included, with
    /// Bresenham's stepping. Points off the screen are skipped one by one, so a
    /// line may run partly off-screen.
    pub fn line(&mut self, p0: Vec2i, p1: Vec2i, col: Rgba)
        requires
            old(self)@.wf(),
        ensures
            final(self)@.wf(),
            final(self)@.same_frame(old(self)@),
            forall|x: int, y: int, c: int|
                old(self)@.in_bounds(x, y) && 0 <= c < 4 ==> #[trigger] final(self)@.byte_at(x, y, c) == line_byte(
                    old(self)@,
                    p0,
                    p1,
                    col,
                    x,
                    y,
                    c,
                ),
            final(self)@ == line_view(old(self)@, p0, p1, col),
    {
        let ghost start = self@;
        proof {
            lemma_line_view_bytes(start, p0, p1, col);
        }
        let x0 = p0.0 as i64 - self.position.0 as i64;
        let y0 = p0.1 as i64 - self.position.1 as i64;
        let x1 = p1.0 as i64 - self.position.0 as i64;
        let y1 = p1.1 as i64 - self.position.1 as i64;
        let mut x = x0;
        let mut y = y0;
        let dx: i128 = if x1 >= x0 {
            (x1 - x0) as i128
        } else {
            (x0 - x1) as i128
        };
        let sx: i64 = if x0 < x1 {
            1
        } else {
            -1
        };
        let dy: i128 = if y1 >= y0 {
            -((y1 - y0) as i128)
        } else {
            -((y0 - y1) as i128)
        };
        let sy: i64 = if y0 < y1 {
            1
        } else {
            -1
        };
        let mut err: i128 = dx + dy;
        let width = self.width as i64;
        let height = self.height as i64;
        let ghost ax = dx as int;
        let ghost ay = -dy;
        let ghost mut a: int = 0;
        let ghost mut b: int = 0;
        let ghost mut k: nat = 0;
        loop
            invariant_except_break
                forall|px: int, py: int, c: int|
                    start.in_bounds(px, py) && 0 <= c < 4 ==> #[trigger] self@.byte_at(px, py, c) == if walked(
                        x0 as int,
                        y0 as int,
                        x1 as int,
                        y1 as int,
                        k,
                        px,
                        py,
                    ) {
                        channel(col, c)
                    } else {
                        start.byte_at(px, py, c)
                    },
            invariant
                self@.wf(),
                self@.same_frame(start),
                width == start.width,
                height == start.height,
                x0 == p0.0 - start.camera.0,
                y0 == p0.1 - start.camera.1,
                x1 == p1.0 - start.camera.0,
                y1 == p1.1 - start.camera.1,
                ax == abs(x1 - x0),
                ay == abs(y1 - y0),
                dx == ax,
                dy == -ay,
                sx == if x0 < x1 { 1int } else { -1int },
                sy == if y0 < y1 { 1int } else { -1int },
                0 <= a <= ax,
                0 <= b <= ay,
                x == if x0 < x1 { x0 + a } else { x0 - a },
                y == if y0 < y1 { y0 + b } else { y0 - b },
                ax <= 0x2_0000_0000,
                ay <= 0x2_0000_0000,
                err == ax - ay + b * ax - a * ay,
                bresenham(x0 as int, y0 as int, x1 as int, y1 as int, k) == (x as int, y as int, err as int),
                forall|j: nat| j < k ==> (#[trigger] bresenham(x0 as int, y0 as int, x1 as int, y1 as int, j).0 != x1
                    || bresenham(x0 as int, y0 as int, x1 as int, y1 as int, j).1 != y1),
            ensures
                x == x1 && y == y1,
                forall|px: int, py: int, c: int|
                    start.in_bounds(px, py) && 0 <= c < 4 ==> #[trigger] self@.byte_at(px, py, c) == if walked(
                        x0 as int,
                        y0 as int,
                        x1 as int,
                        y1 as int,
                        k + 1,
                        px,
                        py,
                    ) {
                        channel(col, c)
                    } else {
                        start.byte_at(px, py, c)
                    },
            decreases (ax - a) + (ay - b),
        {
            let ghost before = self@;
            if 0 <= x && x < width && 0 <= y && y < height {
                self.put_pixel(x as usize, y as usize, col);
            }
            proof {
                assert forall|px: int, py: int, c: int| start.in_bounds(px, py) && 0 <= c < 4 implies #[trigger] self@.byte_at(
                    px,
                    py,
                    c,
                ) == if walked(x0 as int, y0 as int, x1 as int, y1 as int, k + 1, px, py) {
                    channel(col, c)
                } else {
                    start.byte_at(px, py, c)
                } by {
                    if px == x && py == y {
                        assert(bresenham(x0 as int, y0 as int, x1 as int, y1 as int, k).0 == px);
                    } else if walked(x0 as int, y0 as int, x1 as int, y1 as int, k + 1, px, py) {
                        let j = choose|j: nat| j < k + 1 && #[trigger] bresenham(x0 as int, y0 as int, x1 as int, y1 as int, j).0 == px
                            && bresenham(x0 as int, y0 as int, x1 as int, y1 as int, j).1 == py;
                        assert(j < k);
                        assert(walked(x0 as int, y0 as int, x1 as int, y1 as int, k, px, py));
                    } else {
                        if walked(x0 as int, y0 as int, x1 as int, y1 as int, k, px, py) {
                            let j = choose|j: nat| j < k && #[trigger] bresenham(x0 as int, y0 as int, x1 as int, y1 as int, j).0 == px
                                && bresenham(x0 as int, y0 as int, x1 as int, y1 as int, j).1 == py;
                            assert(j < k + 1);
                        }
                    }
                }
            }
            if x == x1 && y == y1 {
                break;
            }
            proof {
                assert(a != ax || b != ay) by {
                    if a == ax && b == ay {
                        assert(x == x1);
                        assert(y == y1);
                    }
                }
                lemma_bresenham_step(ax, ay, a, b);
                assert(0 <= b * ax <= 0x4_0000_0000_0000_0000) by (nonlinear_arith)
                    requires
                        0 <= b <= 0x2_0000_0000,
                        0 <= ax <= 0x2_0000_0000,
                ;
                assert(0 <= a * ay <= 0x4_0000_0000_0000_0000) by (nonlinear_arith)
                    requires
                        0 <= a <= 0x2_0000_0000,
                        0 <= ay <= 0x2_0000_0000,
                ;
            }
            let e2 = 2 * err;
            if dy <= e2 {
                err += dy;
                x += sx;
                proof {
                    a = a + 1;
                }
            }
            if e2 <= dx {
                err += dx;
                y += sy;
                proof {
                    b = b + 1;
                }
            }
            proof {
                assert(err == ax - ay + b * ax - a * ay) by (nonlinear_arith)
                    requires
                        err == (ax - ay + (b - (if e2 <= dx { 1int } else { 0int })) * ax - (a - (if dy <= e2 { 1int } else { 0int })) * ay)
                            + (if dy <= e2 { -ay } else { 0int }) + (if e2 <= dx { ax } else { 0int }),
                ;
                k = k + 1;
            }
        }
        proof {
            assert forall|px: int, py: int, c: int| start.in_bounds(px, py) && 0 <= c < 4 implies #[trigger] self@.byte_at(
                px,
                py,
                c,
            ) == line_byte(start, p0, p1, col, px, py, c) by {
                let (X0, Y0, X1, Y1) = (x0 as int, y0 as int, x1 as int, y1 as int);
                if walked(X0, Y0, X1, Y1, k + 1, px, py) {
                    let j = choose|j: nat| j < k + 1 && #[trigger] bresenham(X0, Y0, X1, Y1, j).0 == px && bresenham(X0, Y0, X1, Y1, j).1 == py;
                    assert(on_line(X0, Y0, X1, Y1, px, py));
                } else if on_line(X0, Y0, X1, Y1, px, py) {
                    let m = choose|m: nat|
                        #![trigger bresenham(X0, Y0, X1, Y1, m)]
                        (forall|j: nat| j < m ==> (#[trigger] bresenham(X0, Y0, X1, Y1, j).0 != X1 || bresenham(X0, Y0, X1, Y1, j).1 != Y1))
                            && bresenham(X0, Y0, X1, Y1, m).0 == px && bresenham(X0, Y0, X1, Y1, m).1 == py;
                    if m > k {
                        assert(bresenham(X0, Y0, X1, Y1, k).0 == X1 && bresenham(X0, Y0, X1, Y1, k).1 == Y1);
                    } else {
                        assert(walked(X0, Y0, X1, Y1, k + 1, px, py));
                    }
                }
            }
            lemma_view_ext(self@, line_view(start, p0, p1, col));
        }
    }

    /// Outlines the world rectangle `r` with four lines: top, bottom, left, right.
    pub fn rect_outline(&mut self, r: Rect, col: Rgba)
        requires
            old(self)@.wf(),
            r.x + r.w <= i32::MAX,
            r.y + r.h <= i32::MAX,
        ensures
            final(self)@.wf(),
            final(self)@.same_frame(old(self)@),
            final(self)@ == outline_view(old(self)@, r, col),
    {
        let right = (r.x as i64 + r.w as i64) as i32;
        let bottom = (r.y as i64 + r.h as i64) as i32;
        self.line(Vec2i(r.x, r.y), Vec2i(right, r.y), col);
        self.line(Vec2i(r.x, bottom), Vec2i(right, bottom), col);
        self.line(Vec2i(r.x, r.y), Vec2i(r.x, bottom), col);
        self.line(Vec2i(right, r.y), Vec2i(right, bottom), col);
    }

    /// Fills every pixel with `col` (an overwrite, not a blend).
    pub fn clear(&mut self, col: Rgba)
        requires
            old(self)@.wf(),
        ensures
            final(self)@.wf(),
            final(self)@.same_frame(old(self)@),
            forall|i: int| 0 <= i < final(self)@.pixels.len() ==> #[trigger] final(self)@.pixels[i] == channel(col, i % 4),
    {
        let n = self.framebuffer.len();
        let mut i: usize = 0;
        while i < n
            invariant
                self@.wf(),
                self@.same_frame(old(self)@),
                self@.pixels.len() == n,
                n % 4 == 0,
                i % 4 == 0,
                i <= n,
                forall|j: int| 0 <= j < i ==> #[trigger] self@.pixels[j] == channel(col, j % 4),
            decreases n - i,
        {
            self.framebuffer[i] = col.0;
            self.framebuffer[i + 1] = col.1;
            self.framebuffer[i + 2] = col.2;
            self.framebuffer[i + 3] = col.3;
            i = i + 4;
        }
    }
}

} // verus!
