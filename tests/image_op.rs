use colors::image_op::{
    add_hsv_to_buffer, compute_difference, compute_difference_neg, hsv_to_rgb,
    rgb_buffer_to_blue_channel, rgb_buffer_to_grayscale1, rgb_buffer_to_grayscale2,
    rgb_buffer_to_green_channel, rgb_buffer_to_red_channel, rgb_to_grayscale1, rgb_to_grayscale2,
    rgb_to_hsv, shift_hsv, BufferError,
};

fn primaries() -> Vec<u8> {
    vec![255, 0, 0, 0, 255, 0, 0, 0, 255]
}

fn sample() -> Vec<u8> {
    vec![12, 200, 7, 255, 255, 255, 0, 0, 0, 90, 91, 92, 31, 64, 250, 128, 1, 77]
}

#[test]
fn grayscale1_of_primaries() {
    let mut buf = primaries();
    assert_eq!(rgb_buffer_to_grayscale1(&mut buf), Ok(()));
    assert_eq!(buf, vec![76, 76, 76, 149, 149, 149, 29, 29, 29]);
}

#[test]
fn grayscale2_of_primaries() {
    let mut buf = primaries();
    assert_eq!(rgb_buffer_to_grayscale2(&mut buf), Ok(()));
    assert_eq!(buf, vec![54, 54, 54, 182, 182, 182, 18, 18, 18]);
}

#[test]
fn grayscale_pixel_formulas() {
    assert_eq!(rgb_to_grayscale1(100, 150, 200), (140, 140, 140));
    assert_eq!(rgb_to_grayscale2(100, 150, 200), (142, 142, 142));
    assert_eq!(rgb_to_grayscale1(255, 255, 255), (255, 255, 255));
    assert_eq!(rgb_to_grayscale2(255, 255, 255), (255, 255, 255));
}

#[test]
fn grayscale_pixels_have_equal_channels() {
    let mut a = sample();
    let mut b = sample();
    rgb_buffer_to_grayscale1(&mut a).unwrap();
    rgb_buffer_to_grayscale2(&mut b).unwrap();
    for px in a.chunks(3).chain(b.chunks(3)) {
        assert_eq!(px[0], px[1]);
        assert_eq!(px[1], px[2]);
    }
}

#[test]
fn grayscale_refuses_partial_pixel() {
    let mut buf = vec![1, 2, 3, 4];
    assert_eq!(rgb_buffer_to_grayscale1(&mut buf), Err(BufferError::LengthNotMultipleOfThree));
    assert_eq!(buf, vec![1, 2, 3, 4]);
    assert_eq!(rgb_buffer_to_grayscale2(&mut buf), Err(BufferError::LengthNotMultipleOfThree));
    assert_eq!(buf, vec![1, 2, 3, 4]);
}

#[test]
fn grayscale_of_empty_buffer() {
    let mut buf: Vec<u8> = Vec::new();
    assert_eq!(rgb_buffer_to_grayscale1(&mut buf), Ok(()));
    assert!(buf.is_empty());
}

#[test]
fn red_channel_of_primaries() {
    let mut buf = primaries();
    assert_eq!(rgb_buffer_to_red_channel(&mut buf), Ok(()));
    assert_eq!(buf, vec![255, 0, 0, 0, 0, 0, 0, 0, 0]);
}

#[test]
fn green_and_blue_channels() {
    let mut g = vec![1, 2, 3, 4, 5, 6];
    let mut b = g.clone();
    assert_eq!(rgb_buffer_to_green_channel(&mut g), Ok(()));
    assert_eq!(rgb_buffer_to_blue_channel(&mut b), Ok(()));
    assert_eq!(g, vec![0, 2, 0, 0, 5, 0]);
    assert_eq!(b, vec![0, 0, 3, 0, 0, 6]);
}

#[test]
fn channel_isolation_is_idempotent() {
    let mut once = sample();
    rgb_buffer_to_red_channel(&mut once).unwrap();
    let mut twice = once.clone();
    rgb_buffer_to_red_channel(&mut twice).unwrap();
    assert_eq!(once, twice);
}

#[test]
fn channel_isolation_refuses_partial_pixel() {
    let mut buf = vec![9, 9];
    assert_eq!(rgb_buffer_to_red_channel(&mut buf), Err(BufferError::LengthNotMultipleOfThree));
    assert_eq!(rgb_buffer_to_green_channel(&mut buf), Err(BufferError::LengthNotMultipleOfThree));
    assert_eq!(rgb_buffer_to_blue_channel(&mut buf), Err(BufferError::LengthNotMultipleOfThree));
    assert_eq!(buf, vec![9, 9]);
}

#[test]
fn difference_values() {
    let a = vec![10, 200, 0, 255, 7, 7];
    let b = vec![30, 100, 255, 0, 7, 8];
    assert_eq!(compute_difference(&a, &b), Ok(vec![20, 100, 255, 255, 0, 1]));
    assert_eq!(compute_difference_neg(&a, &b), Ok(vec![235, 155, 0, 0, 255, 254]));
}

#[test]
fn difference_with_itself_is_zero() {
    let a = sample();
    assert_eq!(compute_difference(&a, &a), Ok(vec![0; a.len()]));
    assert_eq!(compute_difference_neg(&a, &a), Ok(vec![255; a.len()]));
}

#[test]
fn difference_is_symmetric() {
    let a = sample();
    let b: Vec<u8> = a.iter().rev().copied().collect();
    assert_eq!(compute_difference(&a, &b), compute_difference(&b, &a));
}

#[test]
fn difference_refuses_bad_lengths() {
    assert_eq!(compute_difference(&[1, 2, 3], &[1, 2, 3, 4, 5, 6]), Err(BufferError::LengthMismatch));
    assert_eq!(compute_difference(&[1, 2], &[3, 4]), Err(BufferError::LengthNotMultipleOfThree));
    assert_eq!(compute_difference_neg(&[1], &[]), Err(BufferError::LengthMismatch));
    assert_eq!(compute_difference_neg(&[1], &[2]), Err(BufferError::LengthNotMultipleOfThree));
}

#[test]
fn hsv_of_red_and_black() {
    assert_eq!(rgb_to_hsv(255, 0, 0), (0, 100, 100));
    assert_eq!(rgb_to_hsv(0, 0, 0), (0, 0, 0));
    assert_eq!(hsv_to_rgb(0, 100, 100), (255, 0, 0));
}

#[test]
fn hsv_sectors() {
    assert_eq!(rgb_to_hsv(0, 255, 0), (120, 100, 100));
    assert_eq!(rgb_to_hsv(0, 0, 255), (240, 100, 100));
    assert_eq!(rgb_to_hsv(255, 0, 43), (350, 100, 100));
    assert_eq!(rgb_to_hsv(128, 64, 32), (20, 75, 50));
    assert_eq!(rgb_to_hsv(100, 100, 100), (0, 0, 39));
    assert_eq!(hsv_to_rgb(120, 100, 100), (0, 255, 0));
    assert_eq!(hsv_to_rgb(240, 100, 100), (0, 0, 255));
    assert_eq!(hsv_to_rgb(360, 100, 100), (255, 0, 0));
    assert_eq!(hsv_to_rgb(20, 75, 50), (128, 64, 32));
}

#[test]
fn hsv_round_trip_stays_in_range() {
    let values = [0u8, 1, 2, 17, 64, 108, 127, 128, 200, 254, 255];
    for &r in &values {
        for &g in &values {
            for &b in &values {
                let (h, s, v) = rgb_to_hsv(r, g, b);
                assert!(h < 360);
                assert!(s <= 100 && v <= 100);
                let _ = hsv_to_rgb(h, s, v);
            }
        }
    }
    assert_eq!(hsv_to_rgb(126, 95, 78), (10, 199, 29));
    let (h, s, v) = rgb_to_hsv(10, 200, 30);
    assert_eq!((h, s, v), (126, 95, 78));
}

#[test]
fn hue_shift_wraps() {
    assert_eq!(shift_hsv(350, 40, 60, 30, 0, 0), (20, 40, 60));
    assert_eq!(shift_hsv(10, 90, 95, 360, 20, 3), (10, 100, 98));
}

#[test]
fn add_hsv_wraps_hue_in_buffer() {
    let mut buf = vec![255, 0, 43];
    assert_eq!(add_hsv_to_buffer(&mut buf, 30, 0, 0), Ok(()));
    assert_eq!(buf, vec![255, 85, 0]);
}

#[test]
fn add_hsv_caps_saturation_and_value() {
    let mut buf = vec![128, 64, 32, 0, 0, 0];
    assert_eq!(add_hsv_to_buffer(&mut buf, 0, 20, 10), Ok(()));
    assert_eq!(buf, vec![153, 56, 8, 26, 20, 20]);
}

#[test]
fn add_hsv_refuses_partial_pixel() {
    let mut buf = vec![1, 2, 3, 4, 5];
    assert_eq!(add_hsv_to_buffer(&mut buf, 1, 1, 1), Err(BufferError::LengthNotMultipleOfThree));
    assert_eq!(buf, vec![1, 2, 3, 4, 5]);
}
