use vstd::prelude::*;

use crate::buffer::{BufView, PixelBuffer};
use crate::kernel::Kernel;
use crate::region::FaceBox;
use crate::engine::blur_faces;
use crate::laws::{blurred_view, lemma_chan_to_bytes};

verus! {

/// Failure of the whole call: the input bytes could not be decoded, or
/// the blurred buffer could not be re-encoded. Degenerate regions are
/// not errors and are absorbed by clamping.
#[derive(Clone, Copy, Debug, PartialEq, Eq, Structural)]
pub enum BlurError {
    DecodeError,
    EncodeError,
}

// Names for what the image codec returns. Decoding and encoding are
// deterministic functions of the bytes alone; their values are not
// stated here, only used to relate the library's outputs to them.
pub uninterp spec fn decode_ok(bytes: Seq<u8>) -> bool;

pub uninterp spec fn decoded_width(bytes: Seq<u8>) -> u32;

pub uninterp spec fn decoded_height(bytes: Seq<u8>) -> u32;

pub uninterp spec fn decoded_pixels(bytes: Seq<u8>) -> Seq<u8>;

pub uninterp spec fn jpeg90_of(width: u32, height: u32, pixels: Seq<u8>) -> Seq<u8>;

/// The pixel buffer that decoding yields.
pub open spec fn decoded_view(bytes: Seq<u8>) -> BufView {
    BufView {
        width: decoded_width(bytes) as nat,
        height: decoded_height(bytes) as nat,
        data: decoded_pixels(bytes),
    }
}

/// Relies on image::load_from_memory and DynamicImage::to_rgba8:
/// decoding recognizes JPEG/PNG (among others), is a deterministic
/// function of the bytes, and yields a row-major RGBA8 buffer of
/// exactly `width * height * 4` bytes.
#[verifier::external_body]
fn decode_rgba(bytes: &[u8]) -> (r: Result<PixelBuffer, BlurError>)
    ensures
        match r {
            Ok(pb) => {
                &&& decode_ok(bytes@)
                &&& pb@.wf()
                &&& pb.width == decoded_width(bytes@)
                &&& pb.height == decoded_height(bytes@)
                &&& pb@.data == decoded_pixels(bytes@)
            },
            Err(e) => e == BlurError::DecodeError && !decode_ok(bytes@),
        },
{
    match image::load_from_memory(bytes) {
        Ok(img) => {
            let rgba = img.to_rgba8();
            let width = rgba.width();
            let height = rgba.height();
            Ok(PixelBuffer { width, height, data: rgba.into_raw() })
        },
        Err(_) => Err(BlurError::DecodeError),
    }
}

/// Relies on image's JPEG encoder (DynamicImage::write_to with JPEG at
/// quality 90): encoding an RGBA8 buffer is a deterministic function
/// of the dimensions and bytes alone. Writing to the in-memory vector
/// cannot fail, so encoding succeeds exactly when both dimensions fit
/// the 16-bit JPEG frame header.
#[verifier::external_body]
fn encode_jpeg(pb: &PixelBuffer) -> (r: Result<Vec<u8>, BlurError>)
    requires
        pb@.wf(),
    ensures
        match r {
            Ok(out) => {
                &&& pb.width <= 0xFFFF
                &&& pb.height <= 0xFFFF
                &&& out@ == jpeg90_of(pb.width, pb.height, pb@.data)
            },
            Err(e) => e == BlurError::EncodeError && (pb.width > 0xFFFF || pb.height > 0xFFFF),
        },
{
    let mut out: Vec<u8> = Vec::new();
    let img = match image::RgbaImage::from_raw(pb.width, pb.height, pb.data.clone()) {
        None => return Err(BlurError::EncodeError),
        Some(img) => img,
    };
    let dynimg = image::DynamicImage::ImageRgba8(img);
    let res = dynimg.write_to(
        &mut std::io::BufWriter::new(std::io::Cursor::new(&mut out)),
        image::ImageOutputFormat::Jpeg(90),
    );
    match res {
        Ok(()) => Ok(out),
        Err(_) => Err(BlurError::EncodeError),
    }
}

/// Decodes the image, blurs every region of `faces` in input order,
/// and re-encodes the result as JPEG at quality 90.
///
/// The output bytes are the encoding of exactly the blurred buffer:
/// every pixel covered by a region's clamped rectangle is blurred,
/// every other pixel keeps its decoded value. Decoding fails if and
/// only if the bytes are not a recognizable raster image; encoding
/// fails if and only if a decoded dimension exceeds the 16-bit JPEG
/// frame limit. On every other input the call succeeds; no partial
/// image is ever returned.
pub fn process_image_with_blur(image_data: &[u8], faces: &[FaceBox], kernel: &Kernel) -> (r: Result<
    Vec<u8>,
    BlurError,
>)
    requires
        kernel@.wf(),
    ensures
        match r {
            Ok(out) => {
                &&& decode_ok(image_data@)
                &&& decoded_width(image_data@) <= 0xFFFF
                &&& decoded_height(image_data@) <= 0xFFFF
                &&& out@ == jpeg90_of(
                    decoded_width(image_data@),
                    decoded_height(image_data@),
                    blurred_view(decoded_view(image_data@), kernel@, faces@),
                )
            },
            Err(e) => {
                ||| (e == BlurError::DecodeError && !decode_ok(image_data@))
                ||| (e == BlurError::EncodeError && decode_ok(image_data@) && (decoded_width(
                    image_data@,
                ) > 0xFFFF || decoded_height(image_data@) > 0xFFFF))
            },
        },
{
    let pb = match decode_rgba(image_data) {
        Ok(pb) => pb,
        Err(e) => {
            return Err(e);
        },
    };
    let out_buf = blur_faces(&pb, kernel, faces);
    proof {
        lemma_chan_to_bytes(out_buf@, pb@, kernel@, faces@);
    }
    encode_jpeg(&out_buf)
}

} // verus!
