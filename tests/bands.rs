use mandelbrot::bands::{plan_bands, Band};
use mandelbrot::workers::plan_for_machine;

fn band(top: usize, rows: usize) -> Band {
    Band { top, rows }
}

#[test]
fn bands_with_short_last_band() {
    assert_eq!(
        plan_bands(10, 4),
        vec![band(0, 3), band(3, 3), band(6, 3), band(9, 1)]
    );
}

#[test]
fn bands_dividing_evenly() {
    assert_eq!(plan_bands(12, 3), vec![band(0, 5), band(5, 5), band(10, 2)]);
    assert_eq!(plan_bands(10, 1), vec![band(0, 10)]);
}

#[test]
fn bands_with_more_workers_than_rows() {
    assert_eq!(plan_bands(3, 8), vec![band(0, 1), band(1, 1), band(2, 1)]);
}

#[test]
fn bands_of_empty_image() {
    assert_eq!(plan_bands(0, 4), Vec::<Band>::new());
}

#[test]
fn bands_tile_every_row_once() {
    for height in 0..40usize {
        for workers in 1..12usize {
            let bands = plan_bands(height, workers);
            let mut next = 0;
            for b in &bands {
                assert_eq!(b.top, next);
                assert!(b.rows > 0);
                next += b.rows;
            }
            assert_eq!(next, height);
        }
    }
}

#[test]
fn machine_plan_has_a_worker() {
    let (workers, bands) = plan_for_machine(750);
    assert!(workers >= 1);
    assert_eq!(bands, plan_bands(750, workers));
}
