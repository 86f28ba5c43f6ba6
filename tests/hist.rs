use colors::hist::{HistogramStats, RGBHistogram};
use colors::image_op::BufferError;

#[test]
fn histogram_of_primaries() {
    let mut h = RGBHistogram::new();
    assert_eq!(h.update_data(vec![255, 0, 0, 0, 255, 0, 0, 0, 255]), Ok(()));
    let stats = h.statistics();
    assert_eq!(stats.total_pixels, 3);
    for c in 0..3 {
        let bins = h.bins(c);
        assert_eq!(bins.len(), 256);
        assert_eq!(bins[255], 1);
        assert_eq!(bins[0], 2);
        for v in 1..255 {
            assert_eq!(bins[v], 0);
        }
    }
    assert_eq!(h.max_count(), 2);
}

#[test]
fn histogram_bins_sum_to_pixel_count() {
    let data: Vec<u8> = (0..300u32).map(|i| (i * 37 % 256) as u8).collect();
    let mut h = RGBHistogram::new();
    h.update_data(data.clone()).unwrap();
    let stats = h.statistics();
    assert_eq!(stats.total_pixels, data.len() / 3);
    for c in 0..3 {
        let sum: u64 = h.bins(c).iter().map(|&x| x as u64).sum();
        assert_eq!(sum, 100);
    }
    assert_eq!(stats.red_count, 100);
    assert_eq!(stats.green_count, 100);
    assert_eq!(stats.blue_count, 100);
}

#[test]
fn histogram_statistics_values() {
    let mut h = RGBHistogram::new();
    h.update_data(vec![10, 20, 30, 30, 20, 10, 30, 0, 200]).unwrap();
    let stats = h.statistics();
    assert_eq!(
        stats,
        HistogramStats {
            total_pixels: 3,
            red_max: 2,
            green_max: 2,
            blue_max: 1,
            red_intensity_sum: 70,
            red_count: 3,
            green_intensity_sum: 40,
            green_count: 3,
            blue_intensity_sum: 240,
            blue_count: 3,
        }
    );
    assert_eq!(h.max_count(), 2);
}

#[test]
fn histogram_is_lazy() {
    let mut h = RGBHistogram::new();
    h.update_data(vec![5, 6, 7]).unwrap();
    assert_eq!(h.bins(0)[5], 0);
    h.refresh();
    assert_eq!(h.bins(0)[5], 1);
    h.update_data(vec![8, 6, 7, 8, 6, 7]).unwrap();
    assert_eq!(h.bins(0)[5], 1);
    h.refresh();
    assert_eq!(h.bins(0)[5], 0);
    assert_eq!(h.bins(0)[8], 2);
}

#[test]
fn histogram_keeps_its_own_copy() {
    let mut data = vec![1, 2, 3];
    let mut h = RGBHistogram::new();
    h.update_data(data.clone()).unwrap();
    data[0] = 9;
    h.refresh();
    assert_eq!(h.bins(0)[1], 1);
    assert_eq!(h.bins(0)[9], 0);
}

#[test]
fn histogram_of_empty_buffer() {
    let mut h = RGBHistogram::new();
    h.update_data(Vec::new()).unwrap();
    let stats = h.statistics();
    assert_eq!(stats.total_pixels, 0);
    assert_eq!(stats.red_max, 0);
    assert_eq!(stats.red_count, 0);
    assert_eq!(stats.red_intensity_sum, 0);
    assert_eq!(h.max_count(), 1);
}

#[test]
fn histogram_clear() {
    let mut h = RGBHistogram::new();
    h.update_data(vec![3, 3, 3]).unwrap();
    h.refresh();
    h.clear();
    assert_eq!(h.max_count(), 0);
    for c in 0..3 {
        assert!(h.bins(c).iter().all(|&x| x == 0));
    }
    let stats = h.statistics();
    assert_eq!(stats.total_pixels, 0);
    assert_eq!(h.max_count(), 0);
}

#[test]
fn histogram_refuses_partial_pixel() {
    let mut h = RGBHistogram::new();
    h.update_data(vec![4, 4, 4]).unwrap();
    assert_eq!(h.update_data(vec![1, 2]), Err(BufferError::LengthNotMultipleOfThree));
    let stats = h.statistics();
    assert_eq!(stats.total_pixels, 1);
    assert_eq!(h.bins(2)[4], 1);
}
