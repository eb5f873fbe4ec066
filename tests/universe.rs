use mandelbrot::{ConfigError, MandelbrotUniverse, PixelColor, RenderError};

fn stops() -> Vec<PixelColor> {
    vec![PixelColor::black(), PixelColor::white()]
}

fn universe(width: u32, height: u32, threads: usize, max_iter: u32) -> MandelbrotUniverse {
    MandelbrotUniverse::new(width, height, threads, &stops(), max_iter).unwrap()
}

fn pixels(u: &MandelbrotUniverse) -> Vec<PixelColor> {
    (0..u.len()).map(|i| u.pixel(i)).collect()
}

/// Splits per-pixel counts into the slices that each worker computes.
fn split(counts: &[u32], threads: usize) -> Vec<Vec<u32>> {
    let per = counts.len() / threads;
    (0..threads).map(|t| counts[t * per..(t + 1) * per].to_vec()).collect()
}

#[test]
fn new_reports_configuration_errors() {
    let one = vec![PixelColor::white()];
    assert_eq!(MandelbrotUniverse::new(4, 4, 1, &one, 50).err(), Some(ConfigError::TooFewColors));
    assert_eq!(MandelbrotUniverse::new(4, 4, 1, &stops(), 0).err(), Some(ConfigError::ZeroMaxIter));
    assert_eq!(MandelbrotUniverse::new(0, 4, 1, &stops(), 50).err(), Some(ConfigError::ZeroSize));
    assert_eq!(MandelbrotUniverse::new(4, 0, 1, &stops(), 50).err(), Some(ConfigError::ZeroSize));
}

#[test]
fn new_starts_with_inside_colour_and_one_worker_at_least() {
    let u = universe(3, 2, 0, 10);
    assert_eq!(u.threads(), 1);
    assert_eq!(u.width(), 3);
    assert_eq!(u.height(), 2);
    assert_eq!(u.max_iter(), 10);
    assert_eq!(u.len(), 6);
    assert!(pixels(&u).iter().all(|c| *c == PixelColor::black()));
}

#[test]
fn pixel_index_is_row_major() {
    let u = universe(4, 3, 1, 10);
    assert_eq!(u.rev_convert_idx(0), (0, 0));
    assert_eq!(u.rev_convert_idx(3), (3, 0));
    assert_eq!(u.rev_convert_idx(5), (1, 1));
    assert_eq!(u.rev_convert_idx(11), (3, 2));
}

#[test]
fn single_pass_colours_each_pixel() {
    let mut u = universe(2, 2, 1, 100);
    u.compute_single_thread(&vec![0, 50, 100, 99]);
    let table = PixelColor::compute_gradient_table(100, &stops());
    assert_eq!(pixels(&u), vec![table[0], table[50], PixelColor::black(), table[99]]);
}

#[test]
fn small_grid_corner_escapes_and_body_is_inside() {
    // a 4 by 4 grid at 50 iterations: the corner escapes at once, the body never
    let mut u = universe(4, 4, 1, 50);
    let mut counts = vec![3u32; 16];
    counts[u.len() / 2 + 1] = 50;
    u.compute(&vec![counts.clone()]);
    let table = PixelColor::compute_gradient_table(50, &stops());
    assert_eq!(u.pixel(0), table[3]);
    assert_ne!(u.pixel(0), PixelColor::black());
    assert_eq!(u.rev_convert_idx(9), (1, 2));
    assert_eq!(u.pixel(9), PixelColor::black());
}

#[test]
fn partitioned_pass_leaves_remainder_inside() {
    let mut u = universe(5, 1, 2, 10);
    assert_eq!(u.slice_len(), 2);
    u.compute(&vec![vec![1, 2], vec![3, 4]]);
    let table = PixelColor::compute_gradient_table(10, &stops());
    assert_eq!(pixels(&u), vec![table[1], table[2], table[3], table[4], PixelColor::black()]);
}

#[test]
fn partitioned_pass_matches_single_pass() {
    let counts: Vec<u32> = (0..24).map(|i| (i * 7 % 21) as u32).collect();
    let mut single = universe(6, 4, 1, 20);
    single.compute_single_thread(&counts);
    for threads in [2usize, 3, 4, 6, 8] {
        let mut multi = universe(6, 4, threads, 20);
        multi.compute(&split(&counts, threads));
        assert_eq!(pixels(&multi), pixels(&single));
    }
}

#[test]
fn compute_twice_gives_the_same_buffer() {
    let counts: Vec<u32> = (0..12).map(|i| (i % 5) as u32).collect();
    let mut u = universe(4, 3, 3, 4);
    u.compute(&split(&counts, 3));
    let first = pixels(&u);
    u.compute(&split(&counts, 3));
    assert_eq!(pixels(&u), first);
}

#[test]
fn resize_round_trip_matches_fresh_pass() {
    let counts: Vec<u32> = (0..12).map(|i| (i % 4) as u32).collect();
    let mut fresh = universe(4, 3, 2, 8);
    fresh.compute(&split(&counts, 2));

    let mut u = universe(4, 3, 2, 8);
    u.resize(7, 5);
    assert_eq!(u.len(), 35);
    assert!(pixels(&u).iter().all(|c| *c == PixelColor::black()));
    u.resize(4, 3);
    u.compute(&split(&counts, 2));
    assert_eq!(pixels(&u), pixels(&fresh));
}

#[test]
fn render_writes_rgba_bytes() {
    let mut u = universe(2, 1, 1, 4);
    u.compute_single_thread(&vec![4, 2]);
    let mid = PixelColor::gradient(2, 4, &stops());
    let mut frame = vec![9u8; 10];
    assert_eq!(u.render(&mut frame), Ok(()));
    assert_eq!(frame, vec![0, 0, 0, 255, mid.r, mid.g, mid.b, mid.a, 9, 9]);
}

#[test]
fn render_refuses_a_small_frame() {
    let u = universe(2, 2, 1, 4);
    let mut frame = vec![7u8; 15];
    assert_eq!(u.render(&mut frame), Err(RenderError::FrameTooSmall));
    assert_eq!(frame, vec![7u8; 15]);
}
