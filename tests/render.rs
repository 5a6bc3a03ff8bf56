use mandelbrot::render::{render, shade, ESCAPE_LIMIT, IN_SET_SHADE};

#[test]
fn shade_of_counts() {
    assert_eq!(shade(None), 16);
    assert_eq!(shade(Some(0)), 0);
    assert_eq!(shade(Some(37)), 37);
    assert_eq!(shade(Some(254)), 254);
    assert_eq!(shade(Some(300)), 44);
    assert_eq!(ESCAPE_LIMIT, 255);
}

#[test]
fn bounded_points_render_in_set_shade() {
    let mut pixels = [0u8; 10 * 10];
    render(&mut pixels, (10, 10), &|_: usize, _: usize| None);
    assert!(pixels.iter().all(|&p| p == IN_SET_SHADE));
}

#[test]
fn render_writes_row_major() {
    let mut pixels = vec![0u8; 4 * 3];
    render(&mut pixels, (4, 3), &|column: usize, row: usize| {
        Some((row * 10 + column) as u32)
    });
    assert_eq!(pixels, vec![0, 1, 2, 3, 10, 11, 12, 13, 20, 21, 22, 23]);
}

#[test]
fn render_twice_gives_same_buffer() {
    let escape = |column: usize, row: usize| {
        if (column + row) % 3 == 0 {
            None
        } else {
            Some((column * row) as u32)
        }
    };
    let mut first = vec![0u8; 7 * 5];
    let mut second = vec![0u8; 7 * 5];
    render(&mut first, (7, 5), &escape);
    render(&mut second, (7, 5), &escape);
    assert_eq!(first, second);
}

#[test]
fn render_empty_band() {
    let mut pixels: Vec<u8> = Vec::new();
    render(&mut pixels, (5, 0), &|_: usize, _: usize| Some(1));
    assert!(pixels.is_empty());
}
