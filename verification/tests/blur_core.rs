use face_blur::buffer::PixelBuffer;
use face_blur::engine::blur_faces;
use face_blur::kernel::{gaussian_side, Kernel};
use face_blur::region::{clamp_region, FaceBox};

fn buffer_from(width: u32, height: u32, data: Vec<u8>) -> PixelBuffer {
    PixelBuffer::new(width, height, data).expect("dimensions must match data length")
}

fn uniform_kernel(side: usize) -> Kernel {
    Kernel::new(side, vec![1u64; side * side]).expect("uniform kernel must validate")
}

fn patterned(width: u32, height: u32) -> PixelBuffer {
    let mut data = Vec::new();
    for y in 0..height {
        for x in 0..width {
            for c in 0..4u32 {
                data.push(((x * 31 + y * 17 + c * 7) % 251) as u8);
            }
        }
    }
    buffer_from(width, height, data)
}

#[test]
fn gaussian_side_sigma_25() {
    let side = gaussian_side(25, 1);
    assert_eq!(side, 151);
    assert_eq!(side % 2, 1);
    assert!(side >= 150);
}

#[test]
fn gaussian_side_fractional_sigma() {
    // sigma = 0.5: ceil(3) = 3, already odd
    assert_eq!(gaussian_side(1, 2), 3);
    // sigma = 1: ceil(6) = 6, rounded up to 7
    assert_eq!(gaussian_side(1, 1), 7);
}

#[test]
fn kernel_rejects_even_side() {
    assert!(Kernel::new(2, vec![1u64; 4]).is_none());
}

#[test]
fn kernel_rejects_length_mismatch() {
    assert!(Kernel::new(3, vec![1u64; 8]).is_none());
}

#[test]
fn kernel_rejects_zero_weights() {
    assert!(Kernel::new(3, vec![0u64; 9]).is_none());
}

#[test]
fn kernel_rejects_overflowing_total() {
    assert!(Kernel::new(1, vec![u64::MAX]).is_none());
}

#[test]
fn kernel_accepts_uniform() {
    let k = uniform_kernel(3);
    assert_eq!(k.side, 3);
    assert_eq!(k.total, 9);
}

#[test]
fn clamp_region_negative_and_overshoot() {
    let f = FaceBox { x1: -5, y1: -2, x2: 300, y2: 4 };
    let c = clamp_region(&f, 10, 8).expect("non-empty after clamping");
    assert_eq!((c.x1, c.y1, c.x2, c.y2), (0, 0, 10, 4));
}

#[test]
fn clamp_region_empty_cases() {
    assert!(clamp_region(&FaceBox { x1: 4, y1: 0, x2: 4, y2: 8 }, 10, 8).is_none());
    assert!(clamp_region(&FaceBox { x1: 6, y1: 0, x2: 2, y2: 8 }, 10, 8).is_none());
    assert!(clamp_region(&FaceBox { x1: 20, y1: 0, x2: 30, y2: 8 }, 10, 8).is_none());
    assert!(clamp_region(&FaceBox { x1: -9, y1: -9, x2: -1, y2: -1 }, 10, 8).is_none());
}

#[test]
fn empty_region_list_is_identity() {
    let src = patterned(4, 3);
    let k = uniform_kernel(3);
    let out = blur_faces(&src, &k, &[]);
    assert_eq!(out.width, 4);
    assert_eq!(out.height, 3);
    assert_eq!(out.data, src.data);
}

#[test]
fn degenerate_regions_leave_image_unchanged() {
    let src = patterned(5, 5);
    let k = uniform_kernel(3);
    let faces = [
        FaceBox { x1: 2, y1: 0, x2: 2, y2: 5 },
        FaceBox { x1: -9, y1: -9, x2: 0, y2: 0 },
        FaceBox { x1: 5, y1: 0, x2: 9, y2: 5 },
    ];
    let out = blur_faces(&src, &k, &faces);
    assert_eq!(out.data, src.data);
}

#[test]
fn blur_matches_hand_computed_average() {
    // 3x1 image, channel 0 values 0, 90, 180; other channels constant.
    let mut data = Vec::new();
    for x in 0..3u32 {
        data.push((x * 90) as u8);
        data.push(10);
        data.push(20);
        data.push(255);
    }
    let src = buffer_from(3, 1, data);
    let k = uniform_kernel(3);
    let out = blur_faces(&src, &k, &[FaceBox { x1: 0, y1: 0, x2: 3, y2: 1 }]);
    // Rows clamp onto the single row; columns clamp onto the edges.
    // x=0 samples columns (0,0,1) three times: (0+0+90)*3/9 = 30
    // x=1 samples columns (0,1,2) three times: (0+90+180)*3/9 = 90
    // x=2 samples columns (1,2,2) three times: (90+180+180)*3/9 = 150
    assert_eq!(out.data[0], 30);
    assert_eq!(out.data[4], 90);
    assert_eq!(out.data[8], 150);
    // constant channels stay constant
    assert_eq!(out.data[1], 10);
    assert_eq!(out.data[2], 20);
    assert_eq!(out.data[3], 255);
}

#[test]
fn single_pixel_wide_region_at_edge() {
    let src = patterned(3, 3);
    let k = uniform_kernel(3);
    let out = blur_faces(&src, &k, &[FaceBox { x1: 0, y1: 0, x2: 1, y2: 3 }]);
    // Expected values from the contract: taps clamp onto the image.
    let chan = |pb: &PixelBuffer, x: i64, y: i64, c: usize| -> u64 {
        let cx = x.clamp(0, 2) as u32;
        let cy = y.clamp(0, 2) as u32;
        pb.data[((cy * 3 + cx) * 4) as usize + c] as u64
    };
    for y in 0..3i64 {
        for c in 0..4usize {
            let mut acc: u64 = 0;
            for ky in -1..=1i64 {
                for kx in -1..=1i64 {
                    acc += chan(&src, kx, y + ky, c);
                }
            }
            let expected = (acc / 9) as u8;
            assert_eq!(out.data[(y as usize * 3) * 4 + c], expected);
        }
    }
    // pixels outside the single-column region are untouched
    for y in 0..3usize {
        for x in 1..3usize {
            for c in 0..4usize {
                let i: usize = (y * 3 + x) * 4 + c;
                assert_eq!(out.data[i], src.data[i]);
            }
        }
    }
}

#[test]
fn overlapping_regions_match_single_later_region() {
    let src = patterned(6, 6);
    let k = uniform_kernel(3);
    let r1 = FaceBox { x1: 0, y1: 0, x2: 4, y2: 4 };
    let r2 = FaceBox { x1: 2, y1: 2, x2: 6, y2: 6 };
    let both = blur_faces(&src, &k, &[r1, r2]);
    let only_later = blur_faces(&src, &k, &[r2]);
    // in the overlap, the output matches applying the later region alone
    for y in 2..4usize {
        for x in 2..4usize {
            for c in 0..4usize {
                let i: usize = (y * 6 + x) * 4 + c;
                assert_eq!(both.data[i], only_later.data[i]);
            }
        }
    }
}

#[test]
fn identical_inputs_give_identical_bytes() {
    let src = patterned(7, 5);
    let k = uniform_kernel(5);
    let faces = [FaceBox { x1: 1, y1: 1, x2: 6, y2: 4 }, FaceBox { x1: 0, y1: 0, x2: 3, y2: 3 }];
    let a = blur_faces(&src, &k, &faces);
    let b = blur_faces(&src, &k, &faces);
    assert_eq!(a.data, b.data);
}

#[test]
fn pixel_buffer_rejects_wrong_length() {
    assert!(PixelBuffer::new(2, 2, vec![0u8; 15]).is_none());
    assert!(PixelBuffer::new(2, 2, vec![0u8; 16]).is_some());
}
