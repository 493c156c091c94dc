use vstd::prelude::*;
use crate::types::{channel, Rect, Rgba};

verus! {

/// A 2D grid of pixels, `depth` bytes per pixel, stored row-major.
/// Textures loaded from images hold premultiplied RGBA8.
pub struct Texture {
    pub image: Vec<u8>,
    pub width: usize,
    pub height: usize,
    pub depth: usize,
}

impl Texture {
    /// The buffer holds exactly `width * height` pixels of `depth` bytes.
    pub open spec fn wf(&self) -> bool {
        self.image@.len() == self.width * self.height * self.depth
    }

    /// A texture from decoded RGBA8 pixel data (`width * height` pixels, four bytes
    /// each, alpha last), with its colour premultiplied by alpha. Bytes past the
    /// image's own pixels are not kept.
    pub fn new(width: usize, height: usize, rgba: Vec<u8>) -> (r: Self)
        requires
            rgba@.len() >= 4 * width * height,
        ensures
            r.wf(),
            r.depth == 4,
            r.width == width,
            r.height == height,
            forall|p: int, k: int|
                0 <= p < width * height && 0 <= k < 4 ==> #[trigger] r.image@[p * 4 + k]
                    == premultiplied_byte(rgba@, p * 4, k, 4, AlphaChannel::Last),
    {
        let ghost bytes = rgba@;
        let mut data = rgba;
        let len = data.len();
        proof {
            assert(width * height * 4 == 4 * width * height) by (nonlinear_arith);
            assert(width * height <= width * height * 4) by (nonlinear_arith);
        }
        let n = width * height * 4;
        data.truncate(n);
        let ghost kept = data@;
        premultiply(data.as_mut_slice(), 4, AlphaChannel::Last);
        proof {
            assert(n as int / 4 == width * height);
            assert forall|p: int, k: int| 0 <= p < width * height && 0 <= k < 4 implies #[trigger] data@[p * 4 + k]
                == premultiplied_byte(bytes, p * 4, k, 4, AlphaChannel::Last) by {
                assert(p * 4 + 3 < n);
                assert(kept[p * 4 + k] == bytes[p * 4 + k]);
                assert(kept[p * 4 + 3] == bytes[p * 4 + 3]);
            }
        }
        Self { width: width, height: height, depth: 4, image: data }
    }

    /// Byte `c` of the pixel at `(x, y)`.
    pub open spec fn byte_at(&self, x: int, y: int, c: int) -> u8 {
        self.image@[(y * self.width + x) * self.depth + c]
    }

    /// The four channels of the pixel at `(x, y)` of an RGBA texture.
    pub(crate) fn pixel_at(&self, x: usize, y: usize) -> (r: Rgba)
        requires
            self.wf(),
            self.depth == 4,
            x < self.width,
            y < self.height,
        ensures
            forall|c: int| 0 <= c < 4 ==> channel(r, c) == #[trigger] self.byte_at(x as int, y as int, c),
    {
        proof {
            let w = self.width as int;
            assert((y + 1) * w <= self.height * w) by (nonlinear_arith)
                requires
                    y + 1 <= self.height,
                    0 <= w,
            ;
            assert((y + 1) * w == y * w + w) by (nonlinear_arith);
            assert(self.height * w * 4 == w * self.height * 4) by (nonlinear_arith);
            assert(0 <= y * w) by (nonlinear_arith)
                requires
                    0 <= y,
                    0 <= w,
            ;
        }
        let len = self.image.len();
        let i = (y * self.width + x) * 4;
        Rgba(self.image[i], self.image[i + 1], self.image[i + 2], self.image[i + 3])
    }

    /// Wraps already-decoded pixel data (e.g. a single-channel glyph bitmap).
    pub fn from_vec(vec: Vec<u8>, width: usize, height: usize, depth: usize) -> (r: Self)
        requires
            vec@.len() == width * height * depth,
        ensures
            r.wf(),
            r.image@ == vec@,
            r.width == width,
            r.height == height,
            r.depth == depth,
    {
        Self { width: width, height: height, depth: depth, image: vec }
    }

    pub fn depth(&self) -> (r: usize)
        ensures
            r == self.depth,
    {
        self.depth
    }

    pub fn size(&self) -> (r: (usize, usize))
        ensures
            r == (self.width, self.height),
    {
        (self.width, self.height)
    }

    /// Bytes per row.
    pub fn pitch(&self) -> (r: usize)
        requires
            self.width * self.depth <= usize::MAX,
        ensures
            r == self.width * self.depth,
    {
        self.width * self.depth
    }

    pub fn buffer(&self) -> (r: &[u8])
        ensures
            r@ == self.image@,
    {
        self.image.as_slice()
    }

    /// Does `frame` lie entirely inside this texture?
    pub fn valid_frame(&self, frame: Rect) -> (r: bool)
        ensures
            r == (0 <= frame.x && frame.x + frame.w <= self.width && 0 <= frame.y && frame.y
                + frame.h <= self.height),
    {
        if frame.x < 0 || frame.y < 0 {
            return false;
        }
        (frame.x as usize) + (frame.w as usize) <= self.width && (frame.y as usize) + (
        frame.h as usize) <= self.height
    }

    /// Expands a one-byte-per-pixel texture to RGBA: the byte goes to red, green and
    /// blue, and alpha is opaque. Textures of any other depth are left as they are.
    pub fn convert_to_rgba(&mut self)
        requires
            old(self).wf(),
            old(self).width * old(self).height * 4 <= usize::MAX,
        ensures
            final(self).wf(),
            old(self).depth != 1 ==> *final(self) == *old(self),
            old(self).depth == 1 ==> {
                &&& final(self).depth == 4
                &&& final(self).width == old(self).width
                &&& final(self).height == old(self).height
                &&& forall|p: int, c: int|
                    0 <= p < old(self).width * old(self).height && 0 <= c < 4
                        ==> #[trigger] final(self).image@[p * 4 + c] == if c < 3 {
                        old(self).image@[p]
                    } else {
                        255u8
                    }
            },
    {
        if self.depth != 1 {
            return;
        }
        let n = self.width * self.height;
        let mut i: usize = 0;
        let mut new_image: Vec<u8> = Vec::new();
        while i < n
            invariant
                self.wf(),
                self.depth == 1,
                n == self.width * self.height,
                n * 4 <= usize::MAX,
                i <= n,
                new_image@.len() == i * 4,
                self.image@ == old(self).image@,
                forall|p: int, c: int|
                    0 <= p < i && 0 <= c < 4 ==> #[trigger] new_image@[p * 4 + c] == if c < 3 {
                        self.image@[p]
                    } else {
                        255u8
                    },
            decreases n - i,
        {
            let g = self.image[i];
            new_image.push(g);
            new_image.push(g);
            new_image.push(g);
            new_image.push(255);
            i += 1;
        }
        self.image = new_image;
        self.depth = 4;
    }
}

/// Sum of the widths of the first `k` textures.
pub open spec fn width_sum(ts: Seq<Texture>, k: nat) -> nat
    decreases k,
{
    if k == 0 {
        0
    } else {
        width_sum(ts, (k - 1) as nat) + ts[k - 1].width as nat
    }
}

/// Greatest height among the first `k` textures (0 when `k == 0`).
pub open spec fn height_max(ts: Seq<Texture>, k: nat) -> nat
    decreases k,
{
    if k == 0 {
        0
    } else {
        let m = height_max(ts, (k - 1) as nat);
        if ts[k - 1].height > m {
            ts[k - 1].height as nat
        } else {
            m
        }
    }
}

/// The bytes that texture `t` contributes to row `row` of a strip `height` rows
/// tall: its own rows are bottom-aligned, and above them it is fully transparent.
pub open spec fn row_segment(t: Texture, row: int, height: int, depth: int) -> Seq<u8> {
    let n = t.width * depth;
    if row + t.height >= height {
        let start = (row + t.height - height) * n;
        t.image@.subrange(start, start + n)
    } else {
        Seq::new(n as nat, |_i: int| 0u8)
    }
}

/// Row `row` of the strip, as far as the first `k` textures go.
pub open spec fn stacked_row(ts: Seq<Texture>, k: nat, row: int, height: int, depth: int) -> Seq<u8>
    decreases k,
{
    if k == 0 {
        Seq::empty()
    } else {
        stacked_row(ts, (k - 1) as nat, row, height, depth) + row_segment(ts[k - 1], row, height, depth)
    }
}

/// The first `rows` rows of the strip made of all of `ts`, one after the other.
pub open spec fn stacked_rows(ts: Seq<Texture>, rows: nat, height: int, depth: int) -> Seq<u8>
    decreases rows,
{
    if rows == 0 {
        Seq::empty()
    } else {
        stacked_rows(ts, (rows - 1) as nat, height, depth) + stacked_row(
            ts,
            ts.len(),
            rows - 1,
            height,
            depth,
        )
    }
}

/// All textures are well formed and share one depth.
pub open spec fn uniform(ts: Seq<Texture>, depth: nat) -> bool {
    forall|t: int| 0 <= t < ts.len() ==> (#[trigger] ts[t]).wf() && ts[t].depth == depth
}

proof fn lemma_width_sum_mono(ts: Seq<Texture>, k1: nat, k2: nat)
    requires
        k1 <= k2 <= ts.len(),
    ensures
        width_sum(ts, k1) <= width_sum(ts, k2),
    decreases k2,
{
    if k1 < k2 {
        lemma_width_sum_mono(ts, k1, (k2 - 1) as nat);
    }
}

proof fn lemma_height_max_bound(ts: Seq<Texture>, k: nat, t: int)
    requires
        0 <= t < k <= ts.len(),
    ensures
        ts[t].height <= height_max(ts, k),
    decreases k,
{
    if t < k - 1 {
        lemma_height_max_bound(ts, (k - 1) as nat, t);
    }
}

proof fn lemma_row_segment_len(t: Texture, row: int, height: int, depth: int)
    requires
        t.wf(),
        t.depth == depth,
        0 <= row < height,
        t.height <= height,
    ensures
        row_segment(t, row, height, depth).len() == t.width * depth,
{
    let n = t.width * depth;
    if row + t.height >= height {
        let r = row + t.height - height;
        assert(0 <= r * n) by (nonlinear_arith)
            requires
                0 <= r,
                0 <= n,
        ;
        assert(r * n + n <= t.height * n) by (nonlinear_arith)
            requires
                r + 1 <= t.height,
                0 <= n,
        ;
        assert(t.height * n == t.width * t.height * t.depth) by (nonlinear_arith)
            requires
                n == t.width * t.depth,
        ;
    }
}

proof fn lemma_stacked_row_len(ts: Seq<Texture>, k: nat, row: int, height: int, depth: nat)
    requires
        uniform(ts, depth),
        k <= ts.len(),
        0 <= row < height,
        height_max(ts, ts.len()) <= height,
    ensures
        stacked_row(ts, k, row, height, depth as int).len() == width_sum(ts, k) as int * depth,
    decreases k,
{
    if k > 0 {
        let t = ts[k - 1];
        lemma_stacked_row_len(ts, (k - 1) as nat, row, height, depth);
        lemma_height_max_bound(ts, ts.len(), k - 1);
        assert(t.wf() && t.depth == depth);
        lemma_row_segment_len(t, row, height, depth as int);
        let ws = width_sum(ts, (k - 1) as nat);
        assert(width_sum(ts, k) as int * depth == ws * depth + t.width * depth) by (nonlinear_arith)
            requires
                width_sum(ts, k) == ws + t.width,
        ;
        assert(stacked_row(ts, k, row, height, depth as int) == stacked_row(ts, (k - 1) as nat, row, height, depth as int) + row_segment(t, row, height, depth as int));
    } else {
        assert(stacked_row(ts, k, row, height, depth as int).len() == 0);
        assert(width_sum(ts, k) == 0);
    }
}

proof fn lemma_stacked_rows_len(ts: Seq<Texture>, rows: nat, height: int, depth: nat)
    requires
        uniform(ts, depth),
        rows <= height,
        height_max(ts, ts.len()) <= height,
    ensures
        stacked_rows(ts, rows, height, depth as int).len() == rows as int * (width_sum(ts, ts.len()) as int
            * depth),
    decreases rows,
{
    if rows > 0 {
        lemma_stacked_rows_len(ts, (rows - 1) as nat, height, depth);
        lemma_stacked_row_len(ts, ts.len(), rows - 1, height, depth);
        let w = width_sum(ts, ts.len()) as int * depth;
        assert(rows * w == (rows - 1) * w + w) by (nonlinear_arith)
            requires
                rows >= 1,
        ;
        assert(stacked_rows(ts, rows, height, depth as int) == stacked_rows(ts, (rows - 1) as nat, height, depth as int) + stacked_row(ts, ts.len(), rows - 1, height, depth as int));
    } else {
        assert(stacked_rows(ts, rows, height, depth as int).len() == 0);
        assert(rows as int * (width_sum(ts, ts.len()) as int * depth) == 0) by (nonlinear_arith)
            requires
                rows == 0,
        ;
    }
}

/// Appends `t`'s contribution to row `row` of a strip `height` rows tall.
fn push_row_segment(out: &mut Vec<u8>, t: &Texture, row: usize, height: usize, depth: usize)
    requires
        t.wf(),
        t.depth == depth,
        row < height,
        t.height <= height,
        old(out)@.len() + t.width * depth <= usize::MAX,
    ensures
        final(out)@ == old(out)@ + row_segment(*t, row as int, height as int, depth as int),
{
    proof {
        lemma_row_segment_len(*t, row as int, height as int, depth as int);
    }
    let len = t.image.len();
    let n = t.width * depth;
    let ghost seg = row_segment(*t, row as int, height as int, depth as int);
    let mut k: usize = 0;
    if t.height >= height - row {
        proof {
            let r = t.height - (height - row);
            assert(r * n + n <= t.height * n) by (nonlinear_arith)
                requires
                    0 <= r,
                    r + 1 <= t.height,
                    0 <= n,
            ;
            assert(t.height * n == t.width * t.height * t.depth) by (nonlinear_arith)
                requires
                    n == t.width * t.depth,
            ;
        }
        let start = (t.height - (height - row)) * n;
        while k < n
            invariant
                k <= n,
                n == t.width * depth,
                seg.len() == n,
                seg == t.image@.subrange(start as int, start + n),
                start + n <= t.image@.len(),
                t.image@.len() == len,
                out@.len() + (n - k) <= usize::MAX,
                out@ == old(out)@ + seg.take(k as int),
            decreases n - k,
        {
            out.push(t.image[start + k]);
            k += 1;
            assert(out@ =~= old(out)@ + seg.take(k as int));
        }
    } else {
        while k < n
            invariant
                k <= n,
                seg.len() == n,
                seg == Seq::new(n as nat, |_i: int| 0u8),
                out@.len() + (n - k) <= usize::MAX,
                out@ == old(out)@ + seg.take(k as int),
            decreases n - k,
        {
            out.push(0);
            k += 1;
            assert(out@ =~= old(out)@ + seg.take(k as int));
        }
    }
    assert(seg.take(n as int) =~= seg);
}

/// Concatenates textures left to right into one strip. The strip is as wide as all
/// of them together and as tall as the tallest; each texture is bottom-aligned and
/// the rows above a shorter one are fully transparent (all-zero bytes). An empty
/// list gives an empty texture of depth 0.
pub fn stack_horizontal(textures: Vec<Texture>) -> (r: Texture)
    requires
        textures@.len() > 0 ==> uniform(textures@, textures@[0].depth as nat),
        width_sum(textures@, textures@.len()) <= usize::MAX,
        width_sum(textures@, textures@.len()) * height_max(textures@, textures@.len()) * (if textures@.len() > 0 {
            textures@[0].depth as int
        } else {
            0
        }) <= usize::MAX,
    ensures
        r.wf(),
        textures@.len() == 0 ==> r.width == 0 && r.height == 0 && r.depth == 0,
        textures@.len() > 0 ==> {
            &&& r.width == width_sum(textures@, textures@.len())
            &&& r.height == height_max(textures@, textures@.len())
            &&& r.depth == textures@[0].depth
            &&& r.image@ == stacked_rows(textures@, r.height as nat, r.height as int, r.depth as int)
        },
{
    let mut new_image: Vec<u8> = Vec::new();
    if textures.len() == 0 {
        return Texture { image: new_image, width: 0, height: 0, depth: 0 };
    }
    let ghost ts = textures@;
    let texture_count = textures.len();
    let depth = textures[0].depth;
    let mut total_width: usize = 0;
    let mut max_height: usize = 0;
    let mut texture: usize = 0;
    while texture < texture_count
        invariant
            ts == textures@,
            texture_count == ts.len(),
            texture <= texture_count,
            width_sum(ts, ts.len()) <= usize::MAX,
            total_width == width_sum(ts, texture as nat),
            max_height == height_max(ts, texture as nat),
        decreases texture_count - texture,
    {
        proof {
            lemma_width_sum_mono(ts, (texture + 1) as nat, ts.len());
        }
        total_width += textures[texture].width;
        if max_height < textures[texture].height {
            max_height = textures[texture].height;
        }
        texture += 1;
    }
    let height = max_height;
    let ghost row_len = total_width * depth;
    proof {
        lemma_stacked_rows_len(ts, 0, height as int, depth as nat);
    }
    let mut row: usize = 0;
    while row < height
        invariant
            ts == textures@,
            texture_count == ts.len(),
            texture_count > 0,
            depth == ts[0].depth,
            uniform(ts, depth as nat),
            total_width == width_sum(ts, ts.len()),
            height == height_max(ts, ts.len()),
            total_width * height * depth <= usize::MAX,
            row <= height,
            new_image@ == stacked_rows(ts, row as nat, height as int, depth as int),
        decreases height - row,
    {
        proof {
            lemma_stacked_rows_len(ts, row as nat, height as int, depth as nat);
        }
        let ghost before = new_image@;
        let mut texture: usize = 0;
        while texture < texture_count
            invariant
                ts == textures@,
                texture_count == ts.len(),
                depth == ts[0].depth,
                uniform(ts, depth as nat),
                total_width == width_sum(ts, ts.len()),
                height == height_max(ts, ts.len()),
                total_width * height * depth <= usize::MAX,
                row < height,
                texture <= texture_count,
                before == stacked_rows(ts, row as nat, height as int, depth as int),
                before.len() == row * (total_width * depth),
                new_image@ == before + stacked_row(ts, texture as nat, row as int, height as int, depth as int),
            decreases texture_count - texture,
        {
            proof {
                lemma_stacked_row_len(ts, texture as nat, row as int, height as int, depth as nat);
                lemma_width_sum_mono(ts, (texture + 1) as nat, ts.len());
                lemma_height_max_bound(ts, ts.len(), texture as int);
                let ws = width_sum(ts, texture as nat);
                let ws1 = width_sum(ts, (texture + 1) as nat);
                assert(ws1 == ws + ts[texture as int].width);
                assert(row * (total_width * depth) + ws1 * depth <= total_width * height * depth)
                    by (nonlinear_arith)
                    requires
                        ws1 <= total_width,
                        row + 1 <= height,
                ;
                assert(ws * depth + ts[texture as int].width * depth == ws1 * depth) by (nonlinear_arith)
                    requires
                        ws1 == ws + ts[texture as int].width,
                ;
            }
            push_row_segment(&mut new_image, &textures[texture], row, height, depth);
            texture += 1;
            proof {
                assert(new_image@ =~= before + stacked_row(ts, texture as nat, row as int, height as int, depth as int));
            }
        }
        row += 1;
    }
    proof {
        lemma_stacked_rows_len(ts, height as nat, height as int, depth as nat);
        assert(height * (total_width * depth) == total_width * height * depth) by (nonlinear_arith);
    }
    Texture { image: new_image, width: total_width, height: height, depth: depth }
}

/// `c * a / 255`, rounded down.
pub open spec fn scale_floor(c: u8, a: u8) -> u8 {
    ((c * a) / 255) as u8
}

/// `c * a / 255`, rounded to nearest (the quotient never lies halfway).
pub open spec fn scale_round(c: u8, a: u8) -> u8 {
    ((2 * (c * a) + 255) / 510) as u8
}

fn scale_floor_exec(c: u8, a: u8) -> (r: u8)
    ensures
        r == scale_floor(c, a),
{
    assert(c * a <= 255 * 255) by (nonlinear_arith)
        requires
            c <= 255,
            a <= 255,
    ;
    ((c as u32 * a as u32) / 255) as u8
}

pub(crate) fn scale_round_exec(c: u8, a: u8) -> (r: u8)
    ensures
        r == scale_round(c, a),
{
    assert(c * a <= 255 * 255) by (nonlinear_arith)
        requires
            c <= 255,
            a <= 255,
    ;
    ((2 * (c as u32 * a as u32) + 255) / 510) as u8
}

/// Where a pixel keeps its alpha byte.
pub enum AlphaChannel {
    First,
    Last,
}

/// Byte `k` of the pixel that starts at `base`, once premultiplied. With the
/// alpha first the pixel is also rotated to end with its alpha.
pub open spec fn premultiplied_byte(s: Seq<u8>, base: int, k: int, depth: int, alpha: AlphaChannel) -> u8 {
    match alpha {
        AlphaChannel::Last => {
            if k == depth - 1 {
                s[base + k]
            } else {
                scale_floor(s[base + k], s[base + depth - 1])
            }
        },
        AlphaChannel::First => {
            if k < 3 {
                scale_round(s[base + k + 1], s[base])
            } else if k == 3 {
                s[base]
            } else {
                scale_round(s[base + k], s[base])
            }
        },
    }
}

proof fn lemma_chunk_below(q: int, k: int, p: int, d: int)
    requires
        0 <= q < p,
        0 <= k < d,
    ensures
        q * d + k < p * d,
        0 <= q * d,
{
    assert((q + 1) * d <= p * d) by (nonlinear_arith)
        requires
            q + 1 <= p,
            0 <= d,
    ;
    assert((q + 1) * d == q * d + d) by (nonlinear_arith);
    assert(0 <= q * d) by (nonlinear_arith)
        requires
            0 <= q,
            0 <= d,
    ;
}

/// Scales the colour bytes of every whole pixel in `img` by the pixel's alpha.
/// Bytes after the last whole pixel are left alone.
fn premultiply(img: &mut [u8], depth: usize, alpha: AlphaChannel)
    requires
        depth >= 1,
        alpha is First ==> depth >= 4,
    ensures
        final(img)@.len() == old(img)@.len(),
        forall|p: int, k: int|
            0 <= p < old(img)@.len() as int / (depth as int) && 0 <= k < depth ==> #[trigger] final(img)@[p * depth + k]
                == premultiplied_byte(old(img)@, p * depth, k, depth as int, alpha),
        forall|i: int|
            (old(img)@.len() as int / (depth as int)) * depth <= i < old(img)@.len() ==> #[trigger] final(img)@[i] == old(
                img,
            )@[i],
{
    let ghost orig = img@;
    let len = img.len();
    let pixels = len / depth;
    let mut p: usize = 0;
    assert(pixels * depth <= len) by (nonlinear_arith)
        requires
            pixels == len / depth,
            depth >= 1,
    ;
    while p < pixels
        invariant
            img@.len() == len,
            orig.len() == len,
            depth >= 1,
            alpha is First ==> depth >= 4,
            pixels == len / depth,
            pixels * depth <= len,
            p <= pixels,
            forall|q: int, k: int|
                0 <= q < p && 0 <= k < depth ==> #[trigger] img@[q * depth + k] == premultiplied_byte(
                    orig,
                    q * depth,
                    k,
                    depth as int,
                    alpha,
                ),
            forall|i: int| p * depth <= i < len ==> #[trigger] img@[i] == orig[i],
        decreases pixels - p,
    {
        assert(p * depth + depth <= pixels * depth) by (nonlinear_arith)
            requires
                p + 1 <= pixels,
        ;
        let base = p * depth;
        let ghost pre = img@;
        match alpha {
            AlphaChannel::Last => {
                let a = img[base + depth - 1];
                let mut k: usize = 0;
                while k < depth - 1
                    invariant
                        img@.len() == len,
                        base == p * depth,
                        base + depth <= len,
                        k <= depth - 1,
                        a == orig[base + depth - 1],
                        forall|i: int| p * depth <= i < len ==> pre[i] == orig[i],
                        forall|j: int| 0 <= j < k ==> #[trigger] img@[base + j] == scale_floor(orig[base + j], a),
                        forall|i: int| 0 <= i < len && !(base <= i < base + k) ==> #[trigger] img@[i] == pre[i],
                    decreases depth - 1 - k,
                {
                    let c = img[base + k];
                    img[base + k] = scale_floor_exec(c, a);
                    k += 1;
                }
            },
            AlphaChannel::First => {
                let a = img[base];
                let mut k: usize = 1;
                while k < depth
                    invariant
                        img@.len() == len,
                        base == p * depth,
                        base + depth <= len,
                        1 <= k <= depth,
                        a == orig[base as int],
                        forall|i: int| p * depth <= i < len ==> pre[i] == orig[i],
                        forall|j: int| 1 <= j < k ==> #[trigger] img@[base + j] == scale_round(orig[base + j], a),
                        forall|i: int| 0 <= i < len && !(base + 1 <= i < base + k) ==> #[trigger] img@[i] == pre[i],
                    decreases depth - k,
                {
                    let c = img[base + k];
                    img[base + k] = scale_round_exec(c, a);
                    k += 1;
                }
                let first = img[base];
                img[base] = img[base + 1];
                img[base + 1] = img[base + 2];
                img[base + 2] = img[base + 3];
                img[base + 3] = first;
            },
        }
        proof {
            assert forall|q: int, k: int| 0 <= q < p + 1 && 0 <= k < depth implies #[trigger] img@[q * depth + k]
                == premultiplied_byte(orig, q * depth, k, depth as int, alpha) by {
                if q < p {
                    lemma_chunk_below(q, k, p as int, depth as int);
                } else {
                    assert(q * depth == base);
                }
            }
            assert forall|i: int| (p + 1) * depth <= i < len implies #[trigger] img@[i] == orig[i] by {
                assert((p + 1) * depth == base + depth) by (nonlinear_arith)
                    requires
                        base == p * depth,
                ;
            }
        }
        p += 1;
    }
}

} // verus!
