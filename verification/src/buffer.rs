use vstd::prelude::*;

verus! {

/// Mathematical model of a pixel buffer: a row-major byte grid of
/// `width * height` pixels, four 8-bit channels (red, green, blue,
/// alpha) per pixel.
pub struct BufView {
    pub width: nat,
    pub height: nat,
    pub data: Seq<u8>,
}

/// Byte offset of channel `c` of the pixel at column `x`, row `y`
/// in a row-major buffer of width `w`.
pub open spec fn buf_idx(w: int, x: int, y: int, c: int) -> int {
    (y * w + x) * 4 + c
}

impl BufView {
    pub open spec fn wf(self) -> bool {
        self.data.len() == self.width * self.height * 4
    }

    /// Channel `c` of the pixel at `(x, y)`.
    pub open spec fn chan(self, x: int, y: int, c: int) -> u8 {
        self.data[buf_idx(self.width as int, x, y, c)]
    }

    /// `(x, y)` lies inside the buffer and `c` names a channel.
    pub open spec fn valid(self, x: int, y: int, c: int) -> bool {
        0 <= x < self.width && 0 <= y < self.height && 0 <= c < 4
    }
}

/// Every channel offset of an in-bounds pixel lies inside the buffer's
/// byte range.
pub proof fn lemma_idx_bounds(w: int, h: int, x: int, y: int, c: int)
    requires
        0 <= x < w,
        0 <= y < h,
        0 <= c < 4,
    ensures
        0 <= buf_idx(w, x, y, c) < w * h * 4,
        0 <= y * w,
        y * w + x <= buf_idx(w, x, y, c),
{
    assert(0 <= (y * w + x) * 4 + c < w * h * 4 && 0 <= y * w && y * w + x <= (y * w + x) * 4
        + c) by (nonlinear_arith)
        requires
            0 <= x < w,
            0 <= y < h,
            0 <= c < 4;
}

/// A byte offset determines the pixel coordinates and channel it
/// belongs to: `buf_idx` is inverted by division and remainder.
pub proof fn lemma_idx_inverse(w: int, h: int, x: int, y: int, c: int)
    requires
        0 <= x < w,
        0 <= y < h,
        0 <= c < 4,
    ensures
        buf_idx(w, x, y, c) % 4 == c,
        (buf_idx(w, x, y, c) / 4) % w == x,
        (buf_idx(w, x, y, c) / 4) / w == y,
{
    let p = y * w + x;
    let n = p * 4 + c;
    vstd::arithmetic::div_mod::lemma_fundamental_div_mod_converse(n, 4, p, c);
    vstd::arithmetic::div_mod::lemma_fundamental_div_mod_converse(p, w, y, x);
}

/// Every byte offset inside the buffer's range is `buf_idx` of exactly
/// one in-bounds pixel coordinate and channel.
pub proof fn lemma_idx_decompose(w: int, h: int, n: int)
    requires
        0 < w,
        0 < h,
        0 <= n < w * h * 4,
    ensures
        0 <= n % 4 < 4,
        0 <= (n / 4) % w < w,
        0 <= (n / 4) / w < h,
        buf_idx(w, (n / 4) % w, (n / 4) / w, n % 4) == n,
{
    let c = n % 4;
    let p = n / 4;
    vstd::arithmetic::div_mod::lemma_fundamental_div_mod(n, 4);
    assert(0 <= c < 4) by (nonlinear_arith)
        requires c == n % 4;
    assert(0 <= p < w * h) by (nonlinear_arith)
        requires
            0 <= n < w * h * 4,
            n == 4 * p + c,
            0 <= c < 4;
    let x = p % w;
    let y = p / w;
    vstd::arithmetic::div_mod::lemma_fundamental_div_mod(p, w);
    assert(0 <= x < w) by (nonlinear_arith)
        requires x == p % w, w > 0;
    assert(0 <= y < h) by (nonlinear_arith)
        requires
            0 <= p < w * h,
            p == w * y + x,
            0 <= x < w,
            w > 0;
    assert((y * w + x) * 4 + c == n);
}

/// An in-memory image: a row-major grid of `width * height` pixels,
/// four 8-bit channels per pixel. Width and height are fixed at
/// creation.
pub struct PixelBuffer {
    pub width: u32,
    pub height: u32,
    pub data: Vec<u8>,
}

impl View for PixelBuffer {
    type V = BufView;

    open spec fn view(&self) -> BufView {
        BufView {
            width: self.width as nat,
            height: self.height as nat,
            data: self.data@,
        }
    }
}

impl PixelBuffer {
    /// Creates a buffer from raw bytes; rejects a byte vector whose
    /// length does not match the dimensions.
    pub fn new(width: u32, height: u32, data: Vec<u8>) -> (r: Option<PixelBuffer>)
        ensures
            match r {
                Some(pb) => {
                    &&& pb.width == width
                    &&& pb.height == height
                    &&& pb@.data == data@
                    &&& pb@.wf()
                },
                None => data@.len() != width * height * 4,
            },
    {
        let n: usize = data.len();
        proof {
            assert((width as int) * (height as int) <= 0xFFFF_FFFF * 0xFFFF_FFFF) by (nonlinear_arith)
                requires
                    width <= 0xFFFF_FFFF,
                    height <= 0xFFFF_FFFF;
        }
        let wh: u64 = (width as u64) * (height as u64);
        if wh > u64::MAX / 4 {
            return None;
        }
        let need: u64 = wh * 4;
        if n as u64 == need {
            Some(PixelBuffer { width, height, data })
        } else {
            None
        }
    }

    /// Reads channel `c` of the pixel at `(x, y)`.
    pub fn get_chan(&self, x: u32, y: u32, c: usize) -> (r: u8)
        requires
            self@.wf(),
            x < self.width,
            y < self.height,
            c < 4,
        ensures
            r == self@.chan(x as int, y as int, c as int),
    {
        proof {
            lemma_idx_bounds(self.width as int, self.height as int, x as int, y as int, c as int);
        }
        // binding the length as a usize bounds every in-range offset
        let _l: usize = self.data.len();
        let i: usize = ((y as usize) * (self.width as usize) + (x as usize)) * 4 + c;
        self.data[i]
    }

    /// Writes channel `c` of the pixel at `(x, y)`; every other byte of
    /// the buffer is unchanged.
    pub fn set_chan(&mut self, x: u32, y: u32, c: usize, v: u8)
        requires
            old(self)@.wf(),
            x < old(self).width,
            y < old(self).height,
            c < 4,
        ensures
            final(self)@.wf(),
            final(self).width == old(self).width,
            final(self).height == old(self).height,
            forall|xx: int, yy: int, cc: int|
                old(self)@.valid(xx, yy, cc) ==> final(self)@.chan(xx, yy, cc) == (
                    if xx == x as int && yy == y as int && cc == c as int {
                        v
                    } else {
                        old(self)@.chan(xx, yy, cc)
                    }),
    {
        proof {
            lemma_idx_bounds(self.width as int, self.height as int, x as int, y as int, c as int);
        }
        // binding the length as a usize bounds every in-range offset
        let _l: usize = self.data.len();
        let i: usize = ((y as usize) * (self.width as usize) + (x as usize)) * 4 + c;
        self.data.set(i, v);
        proof {
            let w = old(self).width as int;
            let h = old(self).height as int;
            assert forall|xx: int, yy: int, cc: int|
                old(self)@.valid(xx, yy, cc) implies self@.chan(xx, yy, cc) == (
                    if xx == x as int && yy == y as int && cc == c as int {
                        v
                    } else {
                        old(self)@.chan(xx, yy, cc)
                    }) by {
                lemma_idx_bounds(w, h, xx, yy, cc);
                if !(xx == x as int && yy == y as int && cc == c as int) {
                    lemma_idx_inverse(w, h, xx, yy, cc);
                    lemma_idx_inverse(w, h, x as int, y as int, c as int);
                }
            }
        }
    }

    /// Returns an independent copy of the buffer.
    pub fn dup(&self) -> (r: PixelBuffer)
        requires
            self@.wf(),
        ensures
            r.width == self.width,
            r.height == self.height,
            r@.data == self@.data,
    {
        let mut data: Vec<u8> = Vec::new();
        let mut i: usize = 0;
        while i < self.data.len()
            invariant
                i <= self@.data.len(),
                data@ == self@.data.take(i as int),
            decreases self@.data.len() - i,
        {
            data.push(self.data[i]);
            proof {
                assert(data@ == self@.data.take(i + 1 as int));
            }
            i = i + 1;
        }
        proof {
            assert(self@.data.take(self@.data.len() as int) == self@.data);
        }
        PixelBuffer { width: self.width, height: self.height, data }
    }
}

} // verus!
