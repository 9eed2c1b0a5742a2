use vstd::prelude::*;

use crate::buffer::{BufView, buf_idx, lemma_idx_decompose};
use crate::kernel::KernelView;
use crate::region::{FaceBox, covered, in_clamped, clamped_nonempty, lemma_covered_push};
use crate::engine::{blur_chan, result_chan, lemma_blur_chan_uniform};

verus! {

/// With an empty region list, every output channel equals the input:
/// the engine is the identity on an image nothing asks to blur.
pub proof fn lemma_empty_regions_identity(img: BufView, k: KernelView, x: int, y: int, c: int)
    ensures
        result_chan(img, k, Seq::<FaceBox>::empty(), x, y, c) == img.chan(x, y, c),
{
    assert(!covered(Seq::<FaceBox>::empty(), img.width as int, img.height as int, x, y));
}

/// A region whose clamped intersection with the image is empty changes
/// nothing: appending it to any region list leaves every output
/// channel as it was, and no error arises.
pub proof fn lemma_degenerate_region_no_effect(
    img: BufView,
    k: KernelView,
    faces: Seq<FaceBox>,
    f: FaceBox,
    x: int,
    y: int,
    c: int,
)
    requires
        !clamped_nonempty(f, img.width as int, img.height as int),
    ensures
        result_chan(img, k, faces.push(f), x, y, c) == result_chan(img, k, faces, x, y, c),
{
    lemma_covered_push(faces, f, img.width as int, img.height as int, x, y);
}

/// Inside the clamped rectangle of the last region of the list, the
/// output holds exactly that region's blurred value. Every region's
/// blur samples the untouched source, so overlapping earlier regions
/// produce the same value: writing in input order makes the later
/// region win without changing the overlap's bytes.
pub proof fn lemma_last_region_wins(
    img: BufView,
    k: KernelView,
    faces: Seq<FaceBox>,
    g: FaceBox,
    x: int,
    y: int,
    c: int,
)
    requires
        in_clamped(g, img.width as int, img.height as int, x, y),
    ensures
        result_chan(img, k, faces.push(g), x, y, c) == blur_chan(img, k, x, y, c),
{
    lemma_covered_push(faces, g, img.width as int, img.height as int, x, y);
}

/// A buffer whose channels all match the engine's output
/// characterization has exactly these bytes, pixel by pixel.
pub open spec fn blurred_view(img: BufView, k: KernelView, faces: Seq<FaceBox>) -> Seq<u8> {
    Seq::new(
        img.data.len(),
        |n: int|
            result_chan(
                img,
                k,
                faces,
                (n / 4) % img.width as int,
                (n / 4) / img.width as int,
                n % 4,
            ) as u8,
    )
}

/// The engine's output characterization pins every byte: a buffer that
/// satisfies it channel-wise holds exactly `blurred_view`.
pub proof fn lemma_chan_to_bytes(out: BufView, img: BufView, k: KernelView, faces: Seq<FaceBox>)
    requires
        img.wf(),
        out.wf(),
        out.width == img.width,
        out.height == img.height,
        forall|x: int, y: int, c: int|
            img.valid(x, y, c) ==> out.chan(x, y, c) as int == result_chan(img, k, faces, x, y, c),
    ensures
        out.data == blurred_view(img, k, faces),
{
    let w = img.width as int;
    let h = img.height as int;
    if w >= 1 && h >= 1 {
        assert forall|n: int| 0 <= n < out.data.len() implies out.data[n] == blurred_view(
            img,
            k,
            faces,
        )[n] by {
            lemma_idx_decompose(w, h, n);
            let cc = n % 4;
            let xx = (n / 4) % w;
            let yy = (n / 4) / w;
            assert(out.data[buf_idx(w, xx, yy, cc)] == out.chan(xx, yy, cc));
        }
        assert(out.data =~= blurred_view(img, k, faces));
    } else {
        assert(w * h * 4 == 0) by (nonlinear_arith)
            requires
                w == 0 || h == 0;
        assert(out.data =~= blurred_view(img, k, faces));
    }
}

/// With an empty region list the blurred bytes are the input bytes:
/// the whole call reduces to re-encoding the decoded image.
pub proof fn lemma_empty_regions_bytes_identity(img: BufView, k: KernelView)
    requires
        img.wf(),
    ensures
        blurred_view(img, k, Seq::<FaceBox>::empty()) == img.data,
{
    let w = img.width as int;
    let h = img.height as int;
    if w >= 1 && h >= 1 {
        assert forall|n: int| 0 <= n < img.data.len() implies blurred_view(
            img,
            k,
            Seq::<FaceBox>::empty(),
        )[n] == img.data[n] by {
            lemma_idx_decompose(w, h, n);
            let cc = n % 4;
            let xx = (n / 4) % w;
            let yy = (n / 4) / w;
            lemma_empty_regions_identity(img, k, xx, yy, cc);
            assert(img.data[buf_idx(w, xx, yy, cc)] == img.chan(xx, yy, cc));
        }
        assert(blurred_view(img, k, Seq::<FaceBox>::empty()) =~= img.data);
    } else {
        assert(w * h * 4 == 0) by (nonlinear_arith)
            requires
                w == 0 || h == 0;
        assert(blurred_view(img, k, Seq::<FaceBox>::empty()) =~= img.data);
    }
}

/// Determinism: two buffers that both satisfy the engine's output
/// characterization for the same image, kernel and region order are
/// byte-identical.
pub proof fn lemma_blur_deterministic(
    a: BufView,
    b: BufView,
    img: BufView,
    k: KernelView,
    faces: Seq<FaceBox>,
)
    requires
        img.wf(),
        a.wf(),
        b.wf(),
        a.width == img.width,
        a.height == img.height,
        b.width == img.width,
        b.height == img.height,
        forall|x: int, y: int, c: int|
            img.valid(x, y, c) ==> a.chan(x, y, c) as int == result_chan(img, k, faces, x, y, c),
        forall|x: int, y: int, c: int|
            img.valid(x, y, c) ==> b.chan(x, y, c) as int == result_chan(img, k, faces, x, y, c),
    ensures
        a.data == b.data,
{
    lemma_chan_to_bytes(a, img, k, faces);
    lemma_chan_to_bytes(b, img, k, faces);
}

/// Blurring a channel that is constant over the whole image is the
/// identity on that channel, inside and outside the blurred regions:
/// the kernel's exact normalization makes the weighted average of a
/// constant that constant.
pub proof fn lemma_uniform_channel_identity(
    img: BufView,
    k: KernelView,
    faces: Seq<FaceBox>,
    x: int,
    y: int,
    c: int,
    v: u8,
)
    requires
        k.wf(),
        1 <= img.width,
        1 <= img.height,
        0 <= x < img.width,
        0 <= y < img.height,
        forall|px: int, py: int|
            0 <= px < img.width && 0 <= py < img.height ==> img.chan(px, py, c) == v,
    ensures
        result_chan(img, k, faces, x, y, c) == v,
{
    lemma_blur_chan_uniform(img, k, x, y, c, v);
}

} // verus!
