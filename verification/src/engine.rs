use vstd::prelude::*;

use crate::buffer::{BufView, PixelBuffer};
use crate::kernel::{Kernel, KernelView, sum_prefix, lemma_sum_prefix_mono};
use crate::region::{FaceBox, ClampedRegion, covered, in_clamped, clamp_region};

verus! {

/// `v` constrained to `[lo, hi]`.
pub open spec fn clamp_int(v: int, lo: int, hi: int) -> int {
    if v < lo {
        lo
    } else if v > hi {
        hi
    } else {
        v
    }
}

/// Column sampled by kernel column `kx` for output column `x`:
/// out-of-bounds taps are clamped onto the nearest edge column of the
/// full image.
pub open spec fn tap_x(img: BufView, x: int, kx: int, half: int) -> int {
    clamp_int(x + kx - half, 0, img.width - 1)
}

/// Row sampled by kernel row `ky` for output row `y`, clamped onto the
/// nearest edge row of the full image.
pub open spec fn tap_y(img: BufView, y: int, ky: int, half: int) -> int {
    clamp_int(y + ky - half, 0, img.height - 1)
}

/// Weighted sum of channel `c` over the first `t` kernel taps, taken in
/// row-major kernel order, for the output pixel at `(x, y)`.
pub open spec fn conv_sum(img: BufView, k: KernelView, x: int, y: int, c: int, t: int) -> int
    decreases t,
{
    if t <= 0 {
        0
    } else {
        let kx = (t - 1) % (k.side as int);
        let ky = (t - 1) / (k.side as int);
        conv_sum(img, k, x, y, c, t - 1) + (img.chan(
            tap_x(img, x, kx, k.half()),
            tap_y(img, y, ky, k.half()),
            c,
        ) as int) * (k.weights[t - 1] as int)
    }
}

/// The blurred value of channel `c` at `(x, y)`: the full weighted sum
/// divided by the accumulated weight sum, truncated. Sampling always
/// reads the original image, so the value does not depend on which
/// region requested it.
pub open spec fn blur_chan(img: BufView, k: KernelView, x: int, y: int, c: int) -> int {
    conv_sum(img, k, x, y, c, (k.side * k.side) as int) / (k.total as int)
}

/// Channel `c` of the output pixel at `(x, y)`: blurred when some
/// region's clamped rectangle covers the pixel, untouched otherwise.
pub open spec fn result_chan(
    img: BufView,
    k: KernelView,
    faces: Seq<FaceBox>,
    x: int,
    y: int,
    c: int,
) -> int {
    if covered(faces, img.width as int, img.height as int, x, y) {
        blur_chan(img, k, x, y, c)
    } else {
        img.chan(x, y, c) as int
    }
}

/// Every kernel tap samples a pixel inside the image.
pub proof fn lemma_tap_in_bounds(img: BufView, x: int, y: int, kx: int, ky: int, half: int)
    requires
        img.width >= 1,
        img.height >= 1,
    ensures
        0 <= tap_x(img, x, kx, half) < img.width,
        0 <= tap_y(img, y, ky, half) < img.height,
{
}

/// A partial weighted sum lies between zero and 255 times the partial
/// weight sum.
pub proof fn lemma_conv_sum_bounds(img: BufView, k: KernelView, x: int, y: int, c: int, t: int)
    requires
        0 <= t,
    ensures
        0 <= conv_sum(img, k, x, y, c, t) <= 255 * sum_prefix(k.weights, t),
    decreases t,
{
    if t > 0 {
        lemma_conv_sum_bounds(img, k, x, y, c, t - 1);
        let kx = (t - 1) % (k.side as int);
        let ky = (t - 1) / (k.side as int);
        let ch = img.chan(tap_x(img, x, kx, k.half()), tap_y(img, y, ky, k.half()), c) as int;
        let w = k.weights[t - 1] as int;
        assert(0 <= ch * w <= 255 * w) by (nonlinear_arith)
            requires
                0 <= ch <= 255,
                0 <= w;
    }
}

/// The blurred value of a channel is always an 8-bit value.
pub proof fn lemma_blur_chan_range(img: BufView, k: KernelView, x: int, y: int, c: int)
    requires
        k.wf(),
    ensures
        0 <= blur_chan(img, k, x, y, c) <= 255,
{
    let t = (k.side * k.side) as int;
    let s = conv_sum(img, k, x, y, c, t);
    let total = k.total as int;
    lemma_conv_sum_bounds(img, k, x, y, c, t);
    vstd::arithmetic::div_mod::lemma_div_pos_is_pos(s, total);
    vstd::arithmetic::div_mod::lemma_div_is_ordered(s, 255 * total, total);
    vstd::arithmetic::div_mod::lemma_div_multiples_vanish(255, total);
}

/// Over an image whose channel `c` is the constant `v`, a partial
/// weighted sum is `v` times the partial weight sum.
pub proof fn lemma_conv_sum_uniform(
    img: BufView,
    k: KernelView,
    x: int,
    y: int,
    c: int,
    v: u8,
    t: int,
)
    requires
        0 <= t,
        img.width >= 1,
        img.height >= 1,
        forall|px: int, py: int|
            0 <= px < img.width && 0 <= py < img.height ==> img.chan(px, py, c) == v,
    ensures
        conv_sum(img, k, x, y, c, t) == v * sum_prefix(k.weights, t),
    decreases t,
{
    if t > 0 {
        lemma_conv_sum_uniform(img, k, x, y, c, v, t - 1);
        let kx = (t - 1) % (k.side as int);
        let ky = (t - 1) / (k.side as int);
        lemma_tap_in_bounds(img, x, y, kx, ky, k.half());
        let w = k.weights[t - 1] as int;
        assert(img.chan(tap_x(img, x, kx, k.half()), tap_y(img, y, ky, k.half()), c) == v);
        assert((v as int) * sum_prefix(k.weights, t - 1) + (v as int) * w == (v as int) * (
        sum_prefix(k.weights, t - 1) + w)) by (nonlinear_arith);
    }
}

/// Blurring a channel that is constant over the whole image leaves its
/// value unchanged: the kernel is exactly normalized by the weight-sum
/// division.
pub proof fn lemma_blur_chan_uniform(img: BufView, k: KernelView, x: int, y: int, c: int, v: u8)
    requires
        k.wf(),
        img.width >= 1,
        img.height >= 1,
        forall|px: int, py: int|
            0 <= px < img.width && 0 <= py < img.height ==> img.chan(px, py, c) == v,
    ensures
        blur_chan(img, k, x, y, c) == v,
{
    let t = (k.side * k.side) as int;
    let total = k.total as int;
    lemma_conv_sum_uniform(img, k, x, y, c, v, t);
    assert(sum_prefix(k.weights, t) == total);
    assert((v as int) * total == total * (v as int)) by (nonlinear_arith);
    vstd::arithmetic::div_mod::lemma_div_multiples_vanish(v as int, total);
}

/// Blurs the sub-rectangle `r` of `src`: returns an independent buffer
/// of the region's dimensions whose every channel is the
/// kernel-weighted, edge-clamped sample average of the untouched
/// source.
#[verifier::loop_isolation(false)]
pub fn blur_region(src: &PixelBuffer, k: &Kernel, r: &ClampedRegion) -> (out: PixelBuffer)
    requires
        src@.wf(),
        k@.wf(),
        r.wf(src.width as int, src.height as int),
    ensures
        out@.wf(),
        out.width == r.x2 - r.x1,
        out.height == r.y2 - r.y1,
        forall|dx: int, dy: int, c: int|
            0 <= dx < out.width && 0 <= dy < out.height && 0 <= c < 4 ==> out@.chan(dx, dy, c)
                == blur_chan(src@, k@, r.x1 + dx, r.y1 + dy, c),
{
    let w_out: u32 = r.x2 - r.x1;
    let h_out: u32 = r.y2 - r.y1;
    let n_taps: usize = k.weights.len();
    let half: usize = k.side / 2;
    let mut data: Vec<u8> = Vec::new();
    let mut dy: u32 = 0;
    while dy < h_out
        invariant
            dy <= h_out,
            data@.len() == (dy * w_out) * 4,
            forall|xx: int, yy: int, cc: int|
                0 <= xx < w_out && 0 <= yy < dy && 0 <= cc < 4 ==> data@[crate::buffer::buf_idx(
                    w_out as int,
                    xx,
                    yy,
                    cc,
                )] == blur_chan(src@, k@, r.x1 + xx, r.y1 + yy, cc),
        decreases h_out - dy,
    {
        let mut dx: u32 = 0;
        while dx < w_out
            invariant
                dx <= w_out,
                dy < h_out,
                data@.len() == (dy * w_out + dx) * 4,
                forall|xx: int, yy: int, cc: int|
                    0 <= xx < w_out && 0 <= yy < dy && 0 <= cc < 4 ==> data@[
                    crate::buffer::buf_idx(w_out as int, xx, yy, cc)] == blur_chan(
                        src@,
                        k@,
                        r.x1 + xx,
                        r.y1 + yy,
                        cc,
                    ),
                forall|xx: int, cc: int|
                    0 <= xx < dx && 0 <= cc < 4 ==> data@[crate::buffer::buf_idx(
                        w_out as int,
                        xx,
                        dy as int,
                        cc,
                    )] == blur_chan(src@, k@, r.x1 + xx, r.y1 + dy, cc),
            decreases w_out - dx,
        {
            let ax: u32 = r.x1 + dx;
            let ay: u32 = r.y1 + dy;
            let mut acc0: u64 = 0;
            let mut acc1: u64 = 0;
            let mut acc2: u64 = 0;
            let mut acc3: u64 = 0;
            let mut wsum: u64 = 0;
            let mut t: usize = 0;
            while t < n_taps
                invariant
                    t <= n_taps,
                    wsum == sum_prefix(k@.weights, t as int),
                    wsum <= k.total,
                    acc0 == conv_sum(src@, k@, ax as int, ay as int, 0, t as int),
                    acc1 == conv_sum(src@, k@, ax as int, ay as int, 1, t as int),
                    acc2 == conv_sum(src@, k@, ax as int, ay as int, 2, t as int),
                    acc3 == conv_sum(src@, k@, ax as int, ay as int, 3, t as int),
                    acc0 <= 255 * wsum,
                    acc1 <= 255 * wsum,
                    acc2 <= 255 * wsum,
                    acc3 <= 255 * wsum,
                decreases n_taps - t,
            {
                let kx: usize = t % k.side;
                let ky: usize = t / k.side;
                proof {
                    vstd::arithmetic::div_mod::lemma_mod_division_less_than_divisor(
                        t as int,
                        k.side as int,
                    );
                    assert(ky < k.side) by (nonlinear_arith)
                        requires
                            ky == t as int / k.side as int,
                            1 <= k.side,
                            0 <= t,
                            t < k.side * k.side;
                }
                let xi: i64 = ax as i64 + kx as i64 - half as i64;
                let sx: u32 = if xi < 0 {
                    0
                } else if xi > (src.width - 1) as i64 {
                    src.width - 1
                } else {
                    xi as u32
                };
                let yi: i64 = ay as i64 + ky as i64 - half as i64;
                let sy: u32 = if yi < 0 {
                    0
                } else if yi > (src.height - 1) as i64 {
                    src.height - 1
                } else {
                    yi as u32
                };
                let w: u64 = k.weights[t];
                let p0: u8 = src.get_chan(sx, sy, 0);
                let p1: u8 = src.get_chan(sx, sy, 1);
                let p2: u8 = src.get_chan(sx, sy, 2);
                let p3: u8 = src.get_chan(sx, sy, 3);
                proof {
                    lemma_sum_prefix_mono(k@.weights, t + 1, k@.weights.len() as int);
                    assert(sum_prefix(k@.weights, t + 1) == wsum + w);
                    assert(p0 as int * w <= 255 * w && p1 as int * w <= 255 * w && p2 as int * w
                        <= 255 * w && p3 as int * w <= 255 * w) by (nonlinear_arith)
                        requires
                            p0 <= 255,
                            p1 <= 255,
                            p2 <= 255,
                            p3 <= 255,
                            0 <= w;
                    assert(sx == tap_x(src@, ax as int, kx as int, k@.half()));
                    assert(sy == tap_y(src@, ay as int, ky as int, k@.half()));
                }
                acc0 = acc0 + (p0 as u64) * w;
                acc1 = acc1 + (p1 as u64) * w;
                acc2 = acc2 + (p2 as u64) * w;
                acc3 = acc3 + (p3 as u64) * w;
                wsum = wsum + w;
                t = t + 1;
            }
            proof {
                assert(n_taps == k@.side * k@.side);
                assert(wsum == k.total);
                lemma_blur_chan_range(src@, k@, ax as int, ay as int, 0);
                lemma_blur_chan_range(src@, k@, ax as int, ay as int, 1);
                lemma_blur_chan_range(src@, k@, ax as int, ay as int, 2);
                lemma_blur_chan_range(src@, k@, ax as int, ay as int, 3);
            }
            let v0: u8 = (acc0 / wsum) as u8;
            let v1: u8 = (acc1 / wsum) as u8;
            let v2: u8 = (acc2 / wsum) as u8;
            let v3: u8 = (acc3 / wsum) as u8;
            data.push(v0);
            data.push(v1);
            data.push(v2);
            data.push(v3);
            proof {
                assert((dy * w_out + (dx + 1)) * 4 == (dy * w_out + dx) * 4 + 4);
                assert forall|xx: int, cc: int|
                    0 <= xx < dx + 1 && 0 <= cc < 4 implies data@[crate::buffer::buf_idx(
                        w_out as int,
                        xx,
                        dy as int,
                        cc,
                    )] == blur_chan(src@, k@, r.x1 + xx, r.y1 + dy, cc) by {
                    crate::buffer::lemma_idx_bounds(w_out as int, dy as int + 1, xx, dy as int, cc);
                    assert((dy as int) * (w_out as int) == (w_out as int) * (dy as int))
                        by (nonlinear_arith);
                    if xx == dx as int {
                        assert(crate::buffer::buf_idx(w_out as int, xx, dy as int, cc) == (dy
                            * w_out + dx) * 4 + cc);
                    }
                }
                assert forall|xx: int, yy: int, cc: int|
                    0 <= xx < w_out && 0 <= yy < dy && 0 <= cc < 4 implies data@[
                    crate::buffer::buf_idx(w_out as int, xx, yy, cc)] == blur_chan(
                        src@,
                        k@,
                        r.x1 + xx,
                        r.y1 + yy,
                        cc,
                    ) by {
                    crate::buffer::lemma_idx_bounds(w_out as int, dy as int, xx, yy, cc);
                    assert((w_out as int) * (dy as int) <= (dy as int) * (w_out as int)
                        + dx as int) by (nonlinear_arith)
                        requires
                            0 <= dx,
                    ;
                }
            }
            dx = dx + 1;
        }
        proof {
            assert(((dy + 1) * w_out) * 4 == (dy * w_out + w_out) * 4) by (nonlinear_arith);
        }
        dy = dy + 1;
    }
    proof {
        assert((h_out * w_out) * 4 == w_out * h_out * 4) by (nonlinear_arith);
    }
    PixelBuffer { width: w_out, height: h_out, data }
}

/// Writes `part` into `img` with its top-left corner at `(x0, y0)`:
/// pixels inside the rectangle take the part's values, every pixel
/// outside it is untouched.
#[verifier::loop_isolation(false)]
pub fn composite(img: &mut PixelBuffer, x0: u32, y0: u32, part: &PixelBuffer)
    requires
        old(img)@.wf(),
        part@.wf(),
        x0 + part.width <= old(img).width,
        y0 + part.height <= old(img).height,
    ensures
        final(img)@.wf(),
        final(img).width == old(img).width,
        final(img).height == old(img).height,
        forall|x: int, y: int, c: int|
            old(img)@.valid(x, y, c) ==> final(img)@.chan(x, y, c) == (
                if x0 <= x < x0 + part.width && y0 <= y < y0 + part.height {
                    part@.chan(x - x0, y - y0, c)
                } else {
                    old(img)@.chan(x, y, c)
                }),
{
    let mut dy: u32 = 0;
    while dy < part.height
        invariant
            dy <= part.height,
            img@.wf(),
            img.width == old(img).width,
            img.height == old(img).height,
            forall|x: int, y: int, c: int|
                old(img)@.valid(x, y, c) ==> img@.chan(x, y, c) == (
                    if x0 <= x < x0 + part.width && y0 <= y < y0 + dy {
                        part@.chan(x - x0, y - y0, c)
                    } else {
                        old(img)@.chan(x, y, c)
                    }),
        decreases part.height - dy,
    {
        let mut dx: u32 = 0;
        while dx < part.width
            invariant
                dx <= part.width,
                dy < part.height,
                img@.wf(),
                img.width == old(img).width,
                img.height == old(img).height,
                forall|x: int, y: int, c: int|
                    old(img)@.valid(x, y, c) ==> img@.chan(x, y, c) == (
                        if x0 <= x < x0 + part.width && y0 <= y < y0 + dy {
                            part@.chan(x - x0, y - y0, c)
                        } else if y == y0 + dy && x0 <= x < x0 + dx {
                            part@.chan(x - x0, y - y0, c)
                        } else {
                            old(img)@.chan(x, y, c)
                        }),
            decreases part.width - dx,
        {
            let v0: u8 = part.get_chan(dx, dy, 0);
            let v1: u8 = part.get_chan(dx, dy, 1);
            let v2: u8 = part.get_chan(dx, dy, 2);
            let v3: u8 = part.get_chan(dx, dy, 3);
            img.set_chan(x0 + dx, y0 + dy, 0, v0);
            img.set_chan(x0 + dx, y0 + dy, 1, v1);
            img.set_chan(x0 + dx, y0 + dy, 2, v2);
            img.set_chan(x0 + dx, y0 + dy, 3, v3);
            dx = dx + 1;
        }
        dy = dy + 1;
    }
}

/// A blurred sub-rectangle waiting to be composited: the buffer's
/// top-left corner sits at `(x, y)` of the full image.
pub struct BlurredPart {
    pub x: u32,
    pub y: u32,
    pub pixels: PixelBuffer,
}

/// The part holds exactly the blurred pixels of its non-empty
/// rectangle, which lies inside the image.
pub open spec fn part_wf(p: BlurredPart, img: BufView, k: KernelView) -> bool {
    &&& p.pixels@.wf()
    &&& p.x + p.pixels.width <= img.width
    &&& p.y + p.pixels.height <= img.height
    &&& 1 <= p.pixels.width
    &&& 1 <= p.pixels.height
    &&& forall|dx: int, dy: int, c: int|
        0 <= dx < p.pixels.width && 0 <= dy < p.pixels.height && 0 <= c < 4
            ==> p.pixels@.chan(dx, dy, c) == blur_chan(img, k, p.x + dx, p.y + dy, c)
}

/// Pixel `(x, y)` lies inside the part's rectangle.
pub open spec fn in_part(p: BlurredPart, x: int, y: int) -> bool {
    p.x <= x < p.x + p.pixels.width && p.y <= y < p.y + p.pixels.height
}

/// Pixel `(x, y)` lies inside at least one of the parts.
pub open spec fn parts_cover(parts: Seq<BlurredPart>, x: int, y: int) -> bool {
    exists|i: int| 0 <= i < parts.len() && in_part(parts[i], x, y)
}

proof fn lemma_parts_cover_push(ps: Seq<BlurredPart>, p: BlurredPart, x: int, y: int)
    ensures
        parts_cover(ps.push(p), x, y) <==> (parts_cover(ps, x, y) || in_part(p, x, y)),
{
    if parts_cover(ps.push(p), x, y) {
        let i = choose|i: int| 0 <= i < ps.push(p).len() && #[trigger] in_part(ps.push(p)[i], x, y);
        if i < ps.len() {
            assert(ps.push(p)[i] == ps[i]);
            assert(0 <= i < ps.len() && in_part(ps[i], x, y));
        } else {
            assert(ps.push(p)[i] == p);
        }
    }
    if parts_cover(ps, x, y) {
        let i = choose|i: int| 0 <= i < ps.len() && #[trigger] in_part(ps[i], x, y);
        assert(0 <= i < ps.push(p).len() && in_part(ps.push(p)[i], x, y));
    }
    if in_part(p, x, y) {
        assert(in_part(ps.push(p)[ps.len() as int], x, y));
    }
}

proof fn lemma_covered_take_step(fs: Seq<FaceBox>, w: int, h: int, j: int, x: int, y: int)
    requires
        0 <= j < fs.len(),
    ensures
        covered(fs.take(j + 1), w, h, x, y) <==> (covered(fs.take(j), w, h, x, y) || in_clamped(
            fs[j],
            w,
            h,
            x,
            y,
        )),
{
    if covered(fs.take(j + 1), w, h, x, y) {
        let i = choose|i: int|
            0 <= i < fs.take(j + 1).len() && #[trigger] in_clamped(fs.take(j + 1)[i], w, h, x, y);
        if i < j {
            assert(fs.take(j)[i] == fs.take(j + 1)[i]);
            assert(0 <= i < fs.take(j).len() && in_clamped(fs.take(j)[i], w, h, x, y));
        } else {
            assert(fs.take(j + 1)[i] == fs[j]);
        }
    }
    if covered(fs.take(j), w, h, x, y) {
        let i = choose|i: int| 0 <= i < fs.take(j).len() && #[trigger] in_clamped(fs.take(j)[i], w, h, x, y);
        assert(0 <= i < fs.take(j + 1).len() && in_clamped(fs.take(j + 1)[i], w, h, x, y));
    }
    if in_clamped(fs[j], w, h, x, y) {
        assert(in_clamped(fs.take(j + 1)[j], w, h, x, y));
    }
}

proof fn lemma_parts_cover_take_step(ps: Seq<BlurredPart>, j: int, x: int, y: int)
    requires
        0 <= j < ps.len(),
    ensures
        parts_cover(ps.take(j + 1), x, y) <==> (parts_cover(ps.take(j), x, y) || in_part(
            ps[j],
            x,
            y,
        )),
{
    if parts_cover(ps.take(j + 1), x, y) {
        let i = choose|i: int| 0 <= i < ps.take(j + 1).len() && #[trigger] in_part(ps.take(j + 1)[i], x, y);
        if i < j {
            assert(ps.take(j)[i] == ps.take(j + 1)[i]);
            assert(0 <= i < ps.take(j).len() && in_part(ps.take(j)[i], x, y));
        } else {
            assert(ps.take(j + 1)[i] == ps[j]);
        }
    }
    if parts_cover(ps.take(j), x, y) {
        let i = choose|i: int| 0 <= i < ps.take(j).len() && #[trigger] in_part(ps.take(j)[i], x, y);
        assert(0 <= i < ps.take(j + 1).len() && in_part(ps.take(j + 1)[i], x, y));
    }
    if in_part(ps[j], x, y) {
        assert(in_part(ps.take(j + 1)[j], x, y));
    }
}

/// First phase: blurs each non-degenerate clamped region of the
/// untouched source independently and collects the results in input
/// order. The parts cover exactly the pixels covered by some region.
#[verifier::loop_isolation(false)]
pub fn compute_blurred_parts(src: &PixelBuffer, k: &Kernel, faces: &[FaceBox]) -> (parts: Vec<
    BlurredPart,
>)
    requires
        src@.wf(),
        k@.wf(),
    ensures
        forall|i: int| 0 <= i < parts@.len() ==> part_wf(parts@[i], src@, k@),
        forall|x: int, y: int|
            parts_cover(parts@, x, y) <==> covered(
                faces@,
                src.width as int,
                src.height as int,
                x,
                y,
            ),
{
    let ghost w = src.width as int;
    let ghost h = src.height as int;
    let mut parts: Vec<BlurredPart> = Vec::new();
    let mut i: usize = 0;
    while i < faces.len()
        invariant
            i <= faces@.len(),
            forall|j: int| 0 <= j < parts@.len() ==> part_wf(parts@[j], src@, k@),
            forall|x: int, y: int|
                parts_cover(parts@, x, y) <==> covered(faces@.take(i as int), w, h, x, y),
        decreases faces@.len() - i,
    {
        let f: FaceBox = faces[i];
        let ghost prev = parts@;
        match clamp_region(&f, src.width, src.height) {
            Some(cr) => {
                let buf = blur_region(src, k, &cr);
                let p = BlurredPart { x: cr.x1, y: cr.y1, pixels: buf };
                parts.push(p);
                proof {
                    assert forall|x: int, y: int|
                        parts_cover(parts@, x, y) <==> covered(
                            faces@.take(i + 1),
                            w,
                            h,
                            x,
                            y,
                        ) by {
                        lemma_parts_cover_push(prev, p, x, y);
                        lemma_covered_take_step(faces@, w, h, i as int, x, y);
                        assert(in_part(p, x, y) <==> in_clamped(faces@[i as int], w, h, x, y));
                    }
                }
            },
            None => {
                proof {
                    assert forall|x: int, y: int|
                        parts_cover(parts@, x, y) <==> covered(
                            faces@.take(i + 1),
                            w,
                            h,
                            x,
                            y,
                        ) by {
                        lemma_covered_take_step(faces@, w, h, i as int, x, y);
                    }
                }
            },
        }
        i = i + 1;
    }
    proof {
        assert(faces@.take(faces@.len() as int) == faces@);
    }
    parts
}

/// Blurs every region of `faces` and composites the results back in
/// input order. Every pixel covered by some region's clamped rectangle
/// holds its blurred value, every other pixel its original one.
/// Blurring always samples the untouched source, so a pixel covered by
/// several regions holds that same value whichever region wrote last.
#[verifier::loop_isolation(false)]
pub fn blur_faces(src: &PixelBuffer, k: &Kernel, faces: &[FaceBox]) -> (out: PixelBuffer)
    requires
        src@.wf(),
        k@.wf(),
    ensures
        out@.wf(),
        out.width == src.width,
        out.height == src.height,
        forall|x: int, y: int, c: int|
            src@.valid(x, y, c) ==> out@.chan(x, y, c) == result_chan(src@, k@, faces@, x, y, c),
{
    let ghost w = src.width as int;
    let ghost h = src.height as int;
    let parts: Vec<BlurredPart> = compute_blurred_parts(src, k, faces);
    let mut out: PixelBuffer = src.dup();
    let mut j: usize = 0;
    while j < parts.len()
        invariant
            j <= parts@.len(),
            out@.wf(),
            out.width == src.width,
            out.height == src.height,
            forall|x: int, y: int, c: int|
                src@.valid(x, y, c) ==> out@.chan(x, y, c) == (
                    if parts_cover(parts@.take(j as int), x, y) {
                        blur_chan(src@, k@, x, y, c)
                    } else {
                        src@.chan(x, y, c) as int
                    }),
        decreases parts@.len() - j,
    {
        let p: &BlurredPart = &parts[j];
        composite(&mut out, p.x, p.y, &p.pixels);
        proof {
            let pp = parts@[j as int];
            assert forall|x: int, y: int, c: int| src@.valid(x, y, c) implies out@.chan(x, y, c)
                == (if parts_cover(parts@.take(j + 1), x, y) {
                blur_chan(src@, k@, x, y, c)
            } else {
                src@.chan(x, y, c) as int
            }) by {
                lemma_parts_cover_take_step(parts@, j as int, x, y);
                if in_part(pp, x, y) {
                    assert(pp.pixels@.chan(x - pp.x, y - pp.y, c) == blur_chan(
                        src@,
                        k@,
                        pp.x + (x - pp.x),
                        pp.y + (y - pp.y),
                        c,
                    ));
                }
            }
        }
        j = j + 1;
    }
    proof {
        assert(parts@.take(parts@.len() as int) == parts@);
    }
    out
}

} // verus!
