use wifi_display_server::yuv::bgra_to_yuv420_fast;

fn reference(bgra: &[u8], width: usize, height: usize, yuv: &mut [u8]) {
    let luma = |p: usize| -> u8 {
        let (b, g, r) = (bgra[p] as i64, bgra[p + 1] as i64, bgra[p + 2] as i64);
        ((77 * r + 150 * g + 29 * b) / 256) as u8
    };
    let ys = width * height;
    let us = ys / 4;
    for rp in 0..height / 2 {
        for cp in 0..width / 2 {
            let mut sum = [0i64; 3];
            for (dr, dc) in [(0, 0), (0, 1), (1, 0), (1, 1)] {
                let row = 2 * rp + dr;
                let col = 2 * cp + dc;
                let p = (row * width + col) * 4;
                yuv[row * width + col] = luma(p);
                for c in 0..3 {
                    sum[c] += bgra[p + c] as i64;
                }
            }
            let (b, g, r) = (sum[0] / 4, sum[1] / 4, sum[2] / 4);
            yuv[ys + rp * (width / 2) + cp] = ((-43 * r - 85 * g + 128 * b + 32768) / 256) as u8;
            yuv[ys + us + rp * (width / 2) + cp] = ((128 * r - 107 * g - 21 * b + 32768) / 256) as u8;
        }
    }
}

#[test]
fn white_block() {
    let bgra = [255u8; 16];
    let mut yuv = [0u8; 6];
    bgra_to_yuv420_fast(&bgra, &mut yuv, 2, 2);
    assert_eq!(yuv, [255, 255, 255, 255, 128, 128]);
}

#[test]
fn black_block() {
    let bgra = [0u8; 16];
    let mut yuv = [9u8; 6];
    bgra_to_yuv420_fast(&bgra, &mut yuv, 2, 2);
    assert_eq!(yuv, [0, 0, 0, 0, 128, 128]);
}

#[test]
fn red_block() {
    let bgra = [0, 0, 255, 255].repeat(4);
    let mut yuv = [0u8; 6];
    bgra_to_yuv420_fast(&bgra, &mut yuv, 2, 2);
    assert_eq!(yuv, [76, 76, 76, 76, 85, 255]);
}

#[test]
fn blue_block() {
    let bgra = [255, 0, 0, 255].repeat(4);
    let mut yuv = [0u8; 6];
    bgra_to_yuv420_fast(&bgra, &mut yuv, 2, 2);
    assert_eq!(yuv, [28, 28, 28, 28, 255, 107]);
}

#[test]
fn chroma_is_from_the_block_average() {
    // One red, one green, one blue and one white pixel.
    let bgra = [0, 0, 255, 0, 0, 255, 0, 0, 255, 0, 0, 0, 255, 255, 255, 0];
    let mut yuv = [0u8; 6];
    bgra_to_yuv420_fast(&bgra, &mut yuv, 2, 2);
    assert_eq!(&yuv[..4], &[76, 149, 28, 255]);
    // Averages: r = g = b = 510 / 4 = 127.
    assert_eq!(yuv[4], ((-43 * 127 - 85 * 127 + 128 * 127 + 32768) / 256) as u8);
    assert_eq!(yuv[5], ((128 * 127 - 107 * 127 - 21 * 127 + 32768) / 256) as u8);
    assert_eq!(yuv[4], 128);
    assert_eq!(yuv[5], 128);
}

#[test]
fn matches_reference_on_a_larger_frame() {
    let (w, h) = (8usize, 6usize);
    let bgra: Vec<u8> = (0..w * h * 4).map(|i| ((i * 37 + 11) % 256) as u8).collect();
    let mut yuv = vec![0u8; w * h * 3 / 2];
    let mut expected = vec![0u8; w * h * 3 / 2];
    bgra_to_yuv420_fast(&bgra, &mut yuv, w, h);
    reference(&bgra, w, h, &mut expected);
    assert_eq!(yuv, expected);
}

#[test]
fn odd_sizes_leave_the_partial_row_and_column_alone() {
    let (w, h) = (3usize, 3usize);
    // Exactly the bytes read: up to the red byte of pixel (1, 1).
    let bgra: Vec<u8> = (0..19).map(|i| (i * 13 % 256) as u8).collect();
    let mut yuv = vec![7u8; 12];
    bgra_to_yuv420_fast(&bgra, &mut yuv, w, h);
    let mut full = bgra.clone();
    full.resize(w * h * 4, 0);
    let mut expected = vec![7u8; 12];
    reference(&full, w, h, &mut expected);
    assert_eq!(yuv, expected);
    for i in [2usize, 5, 6, 7, 8] {
        assert_eq!(yuv[i], 7, "byte {i}");
    }
}

#[test]
fn empty_frame_writes_nothing() {
    let mut yuv = [3u8; 4];
    bgra_to_yuv420_fast(&[], &mut yuv, 0, 0);
    bgra_to_yuv420_fast(&[], &mut yuv, 1, 1);
    assert_eq!(yuv, [3; 4]);
}

#[test]
fn even_frames_are_written_entirely() {
    let (w, h) = (6usize, 4usize);
    let bgra: Vec<u8> = (0..w * h * 4).map(|i| ((i * 91 + 3) % 256) as u8).collect();
    let mut a = vec![0x00u8; w * h * 3 / 2];
    let mut b = vec![0xFFu8; w * h * 3 / 2];
    bgra_to_yuv420_fast(&bgra, &mut a, w, h);
    bgra_to_yuv420_fast(&bgra, &mut b, w, h);
    assert_eq!(a, b);
}

#[test]
fn alpha_does_not_matter() {
    let (w, h) = (4usize, 4usize);
    let a: Vec<u8> = (0..w * h * 4).map(|i| ((i * 53 + 7) % 256) as u8).collect();
    let mut b = a.clone();
    for i in (3..b.len()).step_by(4) {
        b[i] = b[i].wrapping_add(99);
    }
    let mut ya = vec![5u8; w * h * 3 / 2];
    let mut yb = vec![5u8; w * h * 3 / 2];
    bgra_to_yuv420_fast(&a, &mut ya, w, h);
    bgra_to_yuv420_fast(&b, &mut yb, w, h);
    assert_eq!(ya, yb);
}
