use gameshare::pixels::{bgra_to_nv12, copy_rows, test_pattern, PATTERN_HEIGHT, PATTERN_WIDTH};

/// One block of two by two pixels, all alike.
fn block(b: u8, g: u8, r: u8) -> Vec<u8> {
    let mut pixels = Vec::new();
    for _ in 0..4 {
        pixels.extend_from_slice(&[b, g, r, 255]);
    }
    pixels
}

#[test]
fn colours_of_one_block() {
    assert_eq!(bgra_to_nv12(&block(0, 0, 0), 2, 2), vec![16, 16, 16, 16, 128, 128]);
    assert_eq!(bgra_to_nv12(&block(255, 255, 255), 2, 2), vec![235, 235, 235, 235, 128, 128]);
    assert_eq!(bgra_to_nv12(&block(0, 0, 255), 2, 2), vec![82, 82, 82, 82, 90, 240]);
    assert_eq!(bgra_to_nv12(&block(0, 255, 0), 2, 2), vec![144, 144, 144, 144, 54, 34]);
    assert_eq!(bgra_to_nv12(&block(255, 0, 0), 2, 2), vec![41, 41, 41, 41, 240, 110]);
}

#[test]
fn chroma_comes_from_the_upper_left_pixel() {
    let mut pixels = block(0, 0, 0);
    pixels[0..4].copy_from_slice(&[255, 0, 0, 0]);
    assert_eq!(bgra_to_nv12(&pixels, 2, 2), vec![41, 16, 16, 16, 240, 110]);
}

#[test]
fn planes_of_a_larger_picture() {
    let mut pixels = Vec::new();
    for i in 0..16u8 {
        pixels.extend_from_slice(&[i * 16, i * 8, 255 - i * 16, 0]);
    }
    let nv12 = bgra_to_nv12(&pixels, 4, 4);
    assert_eq!(nv12.len(), 24);
    for (i, p) in pixels.chunks(4).enumerate() {
        let (b, g, r) = (p[0] as i32, p[1] as i32, p[2] as i32);
        assert_eq!(nv12[i] as i32, ((66 * r + 129 * g + 25 * b + 128) >> 8) + 16);
    }
    for y in [0usize, 2] {
        for x in [0usize, 2] {
            let p = &pixels[(y * 4 + x) * 4..];
            let (b, g, r) = (p[0] as i32, p[1] as i32, p[2] as i32);
            let uv = 16 + (y / 2) * 4 + x;
            assert_eq!(nv12[uv] as i32, ((-38 * r - 74 * g + 112 * b + 128) >> 8) + 128);
            assert_eq!(nv12[uv + 1] as i32, ((112 * r - 94 * g - 18 * b + 128) >> 8) + 128);
        }
    }
}

#[test]
fn every_colour_is_in_video_range() {
    for b in (0..=255u8).step_by(15) {
        for g in (0..=255u8).step_by(15) {
            for r in (0..=255u8).step_by(15) {
                let nv12 = bgra_to_nv12(&block(b, g, r), 2, 2);
                assert!(nv12[..4].iter().all(|y| (16..=235).contains(y)));
                assert!(nv12[4..].iter().all(|c| (16..=240).contains(c)));
            }
        }
    }
}

#[test]
fn greys_have_no_colour() {
    let mut last = 0u8;
    for v in 0..=255u8 {
        let nv12 = bgra_to_nv12(&block(v, v, v), 2, 2);
        assert_eq!(&nv12[4..], &[128, 128]);
        assert!(nv12[0] >= last);
        last = nv12[0];
    }
}

#[test]
fn empty_pictures_and_a_missing_alpha() {
    assert!(bgra_to_nv12(&[], 0, 0).is_empty());
    assert!(bgra_to_nv12(&[], 0, 7).is_empty());
    assert!(bgra_to_nv12(&[], 7, 0).is_empty());
    assert_eq!(bgra_to_nv12(&block(0, 0, 0)[..15], 2, 2), vec![16, 16, 16, 16, 128, 128]);
}

#[test]
fn rows_are_copied_without_their_padding() {
    let raw: Vec<u8> = (0..40u8).collect();
    let copy = copy_rows(&raw, 12, 2, 3);
    assert_eq!(copy.len(), 24);
    for y in 0..3usize {
        for x in 0..2usize {
            for c in 0..4usize {
                assert_eq!(copy[4 * (y * 2 + x) + c], raw[y * 12 + 4 * x + c]);
            }
        }
    }
    assert_eq!(copy_rows(&raw[..24], 8, 2, 3), raw[..24].to_vec());
    assert!(copy_rows(&raw, 12, 0, 3).is_empty());
    assert!(copy_rows(&[], 12, 5, 0).is_empty());
}

#[test]
fn test_pattern_moves_with_time() {
    let at = |pixels: &[u8], x: usize, y: usize| {
        let i = (y * 1920 + x) * 4;
        [pixels[i], pixels[i + 1], pixels[i + 2], pixels[i + 3]]
    };
    let first = test_pattern(0);
    assert_eq!((PATTERN_WIDTH, PATTERN_HEIGHT), (1920, 1080));
    assert_eq!(first.len(), 1920 * 1080 * 4);
    assert_eq!(at(&first, 0, 0), [0, 0, 0, 255]);
    assert_eq!(at(&first, 1919, 1079), [0, 254, 254, 255]);
    assert_eq!(at(&first, 960, 540), [0, 127, 127, 255]);
    let later = test_pattern(16_667 * 255 + 5);
    assert_eq!(at(&later, 0, 0), [255, 127, 255, 255]);
    assert_eq!(at(&later, 1919, 1079), [255, 125, 253, 255]);
    assert!(test_pattern(16_667 * 256) == first);
}
