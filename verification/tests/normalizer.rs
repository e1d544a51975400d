use focus_capture::frame::{aligned_stride, buffer_covers, normalize, try_normalize};

/// A raw buffer of `height` rows at `stride` pixels apart: real pixels carry
/// a value made of their row, column and channel, padding carries 0xEE.
fn padded_buffer(width: u32, height: u32, stride: u64) -> Vec<u8> {
    let mut raw = vec![0xEEu8; (stride as usize) * (height as usize) * 4];
    for row in 0..height as usize {
        for col in 0..width as usize {
            for channel in 0..4usize {
                raw[(row * stride as usize + col) * 4 + channel] =
                    ((row * 7 + col * 3 + channel) % 200) as u8;
            }
        }
    }
    raw
}

#[test]
fn stride_is_rounded_up_to_thirty_two() {
    assert_eq!(aligned_stride(0), 0);
    assert_eq!(aligned_stride(1), 32);
    assert_eq!(aligned_stride(32), 32);
    assert_eq!(aligned_stride(33), 64);
    assert_eq!(aligned_stride(64), 64);
    assert_eq!(aligned_stride(65), 96);
    assert_eq!(aligned_stride(u32::MAX), 4_294_967_296);
}

#[test]
fn packed_image_has_exact_length_and_no_padding() {
    for &(width, height) in &[(1u32, 1u32), (5, 3), (31, 2), (32, 4), (33, 2), (65, 5), (100, 7)] {
        let stride = aligned_stride(width);
        let raw = padded_buffer(width, height, stride);
        let out = normalize(&raw, width, height, stride);
        assert_eq!(out.len(), (width * height * 4) as usize);
        for row in 0..height as usize {
            for col in 0..width as usize {
                for channel in 0..4usize {
                    assert_eq!(
                        out[(row * width as usize + col) * 4 + channel],
                        ((row * 7 + col * 3 + channel) % 200) as u8
                    );
                }
            }
        }
        assert!(out.iter().all(|&b| b != 0xEE));
    }
}

#[test]
fn packing_a_packed_image_changes_nothing() {
    let width = 48u32;
    let height = 9u32;
    let raw = padded_buffer(width, height, aligned_stride(width));
    let once = normalize(&raw, width, height, aligned_stride(width));
    let twice = normalize(&once, width, height, width as u64);
    assert_eq!(once, twice);
}

#[test]
fn empty_images_pack_to_nothing() {
    assert_eq!(normalize(&[], 0, 0, 0), Vec::<u8>::new());
    assert_eq!(normalize(&[], 17, 0, 32), Vec::<u8>::new());
    assert_eq!(normalize(&[1, 2, 3], 0, 5, 0), Vec::<u8>::new());
}

#[test]
fn last_row_needs_no_padding_behind_it() {
    // Two rows of one pixel at a stride of two pixels: the buffer may end
    // right after the second row's pixel.
    let raw = vec![1u8, 2, 3, 4, 0xEE, 0xEE, 0xEE, 0xEE, 5, 6, 7, 8];
    assert!(buffer_covers(raw.len(), 1, 2, 2));
    assert_eq!(normalize(&raw, 1, 2, 2), vec![1, 2, 3, 4, 5, 6, 7, 8]);
    assert!(!buffer_covers(raw.len() - 1, 1, 2, 2));
}

#[test]
fn short_buffers_are_refused() {
    let raw = padded_buffer(3, 2, 32);
    assert!(try_normalize(&raw, 3, 2, 32).is_some());
    assert_eq!(try_normalize(&raw[..(32 + 3) * 4 - 1], 3, 2, 32), None);
    assert_eq!(
        try_normalize(&raw[..(32 + 3) * 4], 3, 2, 32),
        Some(normalize(&raw, 3, 2, 32))
    );
    assert_eq!(try_normalize(&[], 1, 1, u64::MAX), None);
    assert_eq!(try_normalize(&[9, 9, 9, 9], 1, 1, u64::MAX), Some(vec![9, 9, 9, 9]));
    assert_eq!(try_normalize(&[], u32::MAX, u32::MAX, u64::MAX), None);
}
