use mandelbrot::bands::{band_layout, default_band_layout, rows_per_band, Band};
use mandelbrot::render::render;

fn heights(bands: &[Band]) -> Vec<usize> {
    bands.iter().map(|b| b.height).collect()
}

fn tops(bands: &[Band]) -> Vec<usize> {
    bands.iter().map(|b| b.top).collect()
}

#[test]
fn rows_per_band_rounds_up() {
    assert_eq!(rows_per_band(10, 3), 4);
    assert_eq!(rows_per_band(9, 3), 3);
    assert_eq!(rows_per_band(1, 8), 1);
    assert_eq!(rows_per_band(0, 3), 0);
    assert_eq!(rows_per_band(750, 8), 94);
    assert_eq!(rows_per_band(usize::MAX, 2), usize::MAX / 2 + 1);
}

#[test]
fn clipped_last_band() {
    let bands = band_layout(10, 3);
    assert_eq!(heights(&bands), vec![4, 4, 2]);
    assert_eq!(tops(&bands), vec![0, 4, 8]);
    let indices: Vec<usize> = bands.iter().map(|b| b.index).collect();
    assert_eq!(indices, vec![0, 1, 2]);
}

#[test]
fn fewer_bands_than_workers_when_rows_are_few() {
    let bands = band_layout(10, 6);
    assert_eq!(heights(&bands), vec![2, 2, 2, 2, 2]);
    let bands = band_layout(3, 8);
    assert_eq!(heights(&bands), vec![1, 1, 1]);
    assert_eq!(tops(&bands), vec![0, 1, 2]);
}

#[test]
fn single_worker_gives_one_band() {
    let bands = band_layout(750, 1);
    assert_eq!(bands, vec![Band { index: 0, top: 0, height: 750 }]);
}

#[test]
fn empty_image_gives_no_band() {
    assert!(band_layout(0, 4).is_empty());
}

#[test]
fn bands_cover_every_row_once() {
    for total in 1..60usize {
        for workers in 1..12usize {
            let bands = band_layout(total, workers);
            assert!(bands.len() <= workers);
            let mut next = 0;
            for band in &bands {
                assert_eq!(band.top, next);
                assert!(band.height >= 1);
                next = band.top + band.height;
            }
            assert_eq!(next, total);
        }
    }
}

#[test]
fn default_layout_covers_the_image() {
    let bands = default_band_layout(100);
    assert!(!bands.is_empty());
    assert_eq!(bands[0].top, 0);
    let last = bands[bands.len() - 1];
    assert_eq!(last.top + last.height, 100);
}

#[test]
fn band_corners_and_bounds() {
    let band = Band { index: 1, top: 4, height: 4 };
    assert_eq!(band.bounds(100), (100, 4));
    assert_eq!(band.upper_left_pixel(), (0, 4));
    assert_eq!(band.lower_right_pixel(100), (100, 8));
}

fn global_escape(column: usize, row: usize) -> Option<u32> {
    let v = (column * 7 + row * 13) % 300;
    if v >= 255 {
        None
    } else {
        Some(v as u32)
    }
}

fn render_in_bands(width: usize, height: usize, workers: usize) -> Vec<u8> {
    let mut pixels = vec![0u8; width * height];
    let bands = band_layout(height, workers);
    let mut rest: &mut [u8] = &mut pixels;
    for band in &bands {
        let (chunk, tail) = rest.split_at_mut(width * band.height);
        let top = band.top;
        render(chunk, band.bounds(width), |c, r| global_escape(c, top + r));
        rest = tail;
    }
    assert!(rest.is_empty());
    pixels
}

#[test]
fn one_band_and_many_bands_agree() {
    let whole = render_in_bands(37, 23, 1);
    for workers in 2..10usize {
        assert_eq!(render_in_bands(37, 23, workers), whole);
    }
}

#[test]
fn buffer_length_is_width_times_height() {
    for workers in 1..6usize {
        let bands = band_layout(10, workers);
        let total: usize = bands.iter().map(|b| 7 * b.height).sum();
        assert_eq!(total, 70);
        assert_eq!(render_in_bands(7, 10, workers).len(), 70);
    }
}
