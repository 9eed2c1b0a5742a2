use vstd::prelude::*;

verus! {

/// A rectangle to blur, in image pixel coordinates: top-left `(x1, y1)`
/// inclusive, bottom-right `(x2, y2)` exclusive. No ordering invariant
/// is assumed on input; degenerate boxes are dropped by clamping.
#[derive(Clone, Copy, Debug, PartialEq, Eq, Structural)]
pub struct FaceBox {
    pub x1: i32,
    pub y1: i32,
    pub x2: i32,
    pub y2: i32,
}

/// Left edge of `f` clamped into `[0, _)`.
pub open spec fn cx1(f: FaceBox) -> int {
    if f.x1 < 0 { 0 } else { f.x1 as int }
}

/// Top edge of `f` clamped into `[0, _)`.
pub open spec fn cy1(f: FaceBox) -> int {
    if f.y1 < 0 { 0 } else { f.y1 as int }
}

/// Right edge of `f` clamped to the image width `w`.
pub open spec fn cx2(f: FaceBox, w: int) -> int {
    if f.x2 > w { w } else { f.x2 as int }
}

/// Bottom edge of `f` clamped to the image height `h`.
pub open spec fn cy2(f: FaceBox, h: int) -> int {
    if f.y2 > h { h } else { f.y2 as int }
}

/// The intersection of `f` with a `w * h` image is non-empty.
pub open spec fn clamped_nonempty(f: FaceBox, w: int, h: int) -> bool {
    cx1(f) < cx2(f, w) && cy1(f) < cy2(f, h)
}

/// Pixel `(x, y)` lies inside the clamped, non-empty intersection of
/// `f` with a `w * h` image.
pub open spec fn in_clamped(f: FaceBox, w: int, h: int, x: int, y: int) -> bool {
    clamped_nonempty(f, w, h) && cx1(f) <= x < cx2(f, w) && cy1(f) <= y < cy2(f, h)
}

/// Pixel `(x, y)` lies inside the clamped intersection of at least one
/// box of `faces` with a `w * h` image.
pub open spec fn covered(faces: Seq<FaceBox>, w: int, h: int, x: int, y: int) -> bool {
    exists|i: int| 0 <= i < faces.len() && in_clamped(faces[i], w, h, x, y)
}

/// A box clamped to the image extent, non-empty by construction:
/// `x1 < x2 <= width` and `y1 < y2 <= height`.
#[derive(Clone, Copy, Debug, PartialEq, Eq, Structural)]
pub struct ClampedRegion {
    pub x1: u32,
    pub y1: u32,
    pub x2: u32,
    pub y2: u32,
}

impl ClampedRegion {
    pub open spec fn wf(self, w: int, h: int) -> bool {
        self.x1 < self.x2 <= w && self.y1 < self.y2 <= h
    }

    /// Pixel `(x, y)` lies inside this region.
    pub open spec fn contains(self, x: int, y: int) -> bool {
        self.x1 <= x < self.x2 && self.y1 <= y < self.y2
    }
}

/// Intersects a box with the image extent. Returns the clamped region,
/// or `None` when the intersection is empty — an expected input, not an
/// error.
pub fn clamp_region(f: &FaceBox, width: u32, height: u32) -> (r: Option<ClampedRegion>)
    ensures
        match r {
            Some(c) => {
                &&& clamped_nonempty(*f, width as int, height as int)
                &&& c.x1 == cx1(*f)
                &&& c.y1 == cy1(*f)
                &&& c.x2 == cx2(*f, width as int)
                &&& c.y2 == cy2(*f, height as int)
                &&& c.wf(width as int, height as int)
                &&& forall|x: int, y: int|
                    c.contains(x, y) <==> in_clamped(*f, width as int, height as int, x, y)
            },
            None => !clamped_nonempty(*f, width as int, height as int),
        },
{
    let x1: i64 = if f.x1 < 0 { 0 } else { f.x1 as i64 };
    let y1: i64 = if f.y1 < 0 { 0 } else { f.y1 as i64 };
    let x2: i64 = if f.x2 as i64 > width as i64 { width as i64 } else { f.x2 as i64 };
    let y2: i64 = if f.y2 as i64 > height as i64 { height as i64 } else { f.y2 as i64 };
    if x2 <= x1 || y2 <= y1 {
        None
    } else {
        Some(ClampedRegion { x1: x1 as u32, y1: y1 as u32, x2: x2 as u32, y2: y2 as u32 })
    }
}

/// Appending a box to a region list covers exactly the pixels covered
/// before, plus those inside the new box's clamped rectangle.
pub proof fn lemma_covered_push(fs: Seq<FaceBox>, f: FaceBox, w: int, h: int, x: int, y: int)
    ensures
        covered(fs.push(f), w, h, x, y) <==> (covered(fs, w, h, x, y) || in_clamped(f, w, h, x, y)),
{
    if covered(fs.push(f), w, h, x, y) {
        let i = choose|i: int|
            0 <= i < fs.push(f).len() && #[trigger] in_clamped(fs.push(f)[i], w, h, x, y);
        if i < fs.len() {
            assert(fs.push(f)[i] == fs[i]);
            assert(0 <= i < fs.len() && in_clamped(fs[i], w, h, x, y));
        } else {
            assert(fs.push(f)[i] == f);
        }
    }
    if covered(fs, w, h, x, y) {
        let i = choose|i: int| 0 <= i < fs.len() && #[trigger] in_clamped(fs[i], w, h, x, y);
        assert(0 <= i < fs.push(f).len() && in_clamped(fs.push(f)[i], w, h, x, y));
    }
    if in_clamped(f, w, h, x, y) {
        assert(in_clamped(fs.push(f)[fs.len() as int], w, h, x, y));
    }
}

} // verus!
