use mandelbrot::render::{render, shade, ITERATION_LIMIT};

#[test]
fn shade_of_results() {
    assert_eq!(shade(None), 0);
    assert_eq!(shade(Some(0)), 255);
    assert_eq!(shade(Some(1)), 254);
    assert_eq!(shade(Some(254)), 1);
    assert_eq!(shade(Some(300)), 211);
    assert_eq!(ITERATION_LIMIT, 255);
}

#[test]
fn render_writes_row_major() {
    let mut pixels = vec![9u8; 6];
    render(&mut pixels, (3, 2), |c, r| Some((c + 10 * r) as u32));
    assert_eq!(pixels, vec![255, 254, 253, 245, 244, 243]);
}

#[test]
fn render_marks_non_divergent_points_black() {
    let mut pixels = vec![7u8; 4];
    render(&mut pixels, (2, 2), |c, r| if c == r { None } else { Some(0) });
    assert_eq!(pixels, vec![0, 255, 255, 0]);
}

#[test]
fn render_hundred_by_hundred() {
    let mut pixels = vec![1u8; 100 * 100];
    render(&mut pixels, (100, 100), |_, _| None);
    assert_eq!(pixels.len(), 10000);
    assert!(pixels.iter().all(|&p| p == 0));
}

#[test]
fn render_passes_local_coordinates() {
    let mut pixels = vec![0u8; 4 * 3];
    render(&mut pixels, (4, 3), |c, r| {
        assert!(c < 4 && r < 3);
        Some((c * r) as u32)
    });
    assert_eq!(pixels[3 + 4 * 2], 255 - 6);
    assert_eq!(pixels[0], 255);
}
