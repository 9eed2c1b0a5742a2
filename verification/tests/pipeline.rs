use face_blur::buffer::PixelBuffer;
use face_blur::codec::{process_image_with_blur, BlurError};
use face_blur::engine::blur_faces;
use face_blur::kernel::{gaussian_side, Kernel};
use face_blur::region::FaceBox;

/// Builds the fixed-point Gaussian kernel for the given blur strength,
/// the way a caller supplies one to the verified core.
fn gaussian_kernel(sigma: f64) -> Kernel {
    let num = (sigma * 1000.0).ceil() as u64;
    let side = gaussian_side(num, 1000) as usize;
    let center = (side / 2) as f64;
    let denom = 2.0 * sigma * sigma;
    let mut raw = Vec::with_capacity(side * side);
    let mut sum = 0.0f64;
    for i in 0..side {
        for j in 0..side {
            let dx = i as f64 - center;
            let dy = j as f64 - center;
            let v = (-(dx * dx + dy * dy) / denom).exp();
            sum += v;
            raw.push(v);
        }
    }
    // normalized float weights sum to 1.0 within tolerance
    let normalized_sum: f64 = raw.iter().map(|v| v / sum).sum();
    assert!((normalized_sum - 1.0).abs() < 1e-5);
    let weights: Vec<u64> = raw.iter().map(|v| (v * 4294967296.0) as u64).collect();
    Kernel::new(side, weights).expect("gaussian weights must validate")
}

fn solid_red(width: u32, height: u32) -> PixelBuffer {
    let mut data = Vec::with_capacity((width * height * 4) as usize);
    for _ in 0..width * height {
        data.push(255);
        data.push(0);
        data.push(0);
        data.push(255);
    }
    PixelBuffer::new(width, height, data).expect("length matches")
}

fn red_png(width: u32, height: u32) -> Vec<u8> {
    let img = image::RgbaImage::from_pixel(width, height, image::Rgba([255, 0, 0, 255]));
    let mut png: Vec<u8> = Vec::new();
    image::DynamicImage::ImageRgba8(img)
        .write_to(&mut std::io::Cursor::new(&mut png), image::ImageOutputFormat::Png)
        .expect("png encoding of a fresh buffer succeeds");
    png
}

#[test]
fn gaussian_sigma_25_side_is_odd_and_large() {
    let k = gaussian_kernel(25.0);
    assert_eq!(k.side, 151);
    assert_eq!(k.side % 2, 1);
    assert!(k.side >= 150);
    assert!(k.total > 0);
}

#[test]
fn blurring_solid_red_keeps_it_solid_red() {
    let src = solid_red(100, 100);
    let k = gaussian_kernel(25.0);
    let out = blur_faces(&src, &k, &[FaceBox { x1: 10, y1: 10, x2: 50, y2: 50 }]);
    assert_eq!(out.data, src.data);
}

#[test]
fn end_to_end_red_image_stays_red() {
    let png = red_png(100, 100);
    let k = gaussian_kernel(25.0);
    let faces = [FaceBox { x1: 10, y1: 10, x2: 50, y2: 50 }];
    let out = process_image_with_blur(&png, &faces, &k).expect("valid png must process");
    assert_ne!(out, png);
    let decoded = image::load_from_memory(&out).expect("output must be a valid image").to_rgba8();
    assert_eq!(decoded.width(), 100);
    assert_eq!(decoded.height(), 100);
    for (_, _, px) in decoded.enumerate_pixels() {
        // JPEG at quality 90 keeps a solid color nearly exact
        assert!(px[0] >= 250, "red channel dropped to {}", px[0]);
        assert!(px[1] <= 5 && px[2] <= 5);
    }
}

#[test]
fn garbage_bytes_give_decode_error() {
    let k = gaussian_kernel(1.0);
    let r = process_image_with_blur(&[1, 2, 3, 4, 5], &[], &k);
    assert_eq!(r, Err(BlurError::DecodeError));
}

#[test]
fn empty_region_list_round_trips_through_codec() {
    let png = red_png(8, 8);
    let k = gaussian_kernel(1.0);
    let out = process_image_with_blur(&png, &[], &k).expect("valid png must process");
    let decoded = image::load_from_memory(&out).expect("output decodes").to_rgba8();
    assert_eq!(decoded.width(), 8);
    assert_eq!(decoded.height(), 8);
    for (_, _, px) in decoded.enumerate_pixels() {
        assert!(px[0] >= 250 && px[1] <= 5 && px[2] <= 5);
    }
}

#[test]
fn oversized_dimension_gives_encode_error() {
    // decodes fine, but the width cannot fit the 16-bit JPEG frame header
    let png = red_png(65536, 1);
    let k = gaussian_kernel(1.0);
    let r = process_image_with_blur(&png, &[], &k);
    assert_eq!(r, Err(BlurError::EncodeError));
}
