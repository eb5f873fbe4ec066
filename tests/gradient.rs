use mandelbrot::PixelColor;

fn black_white() -> Vec<PixelColor> {
    vec![PixelColor::black(), PixelColor::white()]
}

#[test]
fn two_stop_table_starts_black_and_never_falls() {
    let table = PixelColor::compute_gradient_table(100, &black_white());
    assert_eq!(table.len(), 101);
    assert_eq!(table[0], PixelColor::black());
    for n in 1..table.len() {
        assert!(table[n - 1].r <= table[n].r);
        assert!(table[n - 1].g <= table[n].g);
        assert!(table[n - 1].b <= table[n].b);
        assert!(table[n - 1].a <= table[n].a);
    }
}

#[test]
fn two_stop_exact_values() {
    let colors = black_white();
    assert_eq!(PixelColor::gradient(50, 100, &colors), PixelColor::new(127, 127, 127, 255));
    assert_eq!(PixelColor::gradient(99, 100, &colors), PixelColor::new(252, 252, 252, 255));
    // the clamp to 0.9999 keeps the top count just short of the last stop
    assert_eq!(PixelColor::gradient(100, 100, &colors), PixelColor::new(254, 254, 254, 255));
}

#[test]
fn three_stops_pick_the_right_pair() {
    let colors = vec![PixelColor::red(), PixelColor::green(), PixelColor::blue()];
    assert_eq!(PixelColor::gradient(0, 4, &colors), PixelColor::red());
    assert_eq!(PixelColor::gradient(1, 4, &colors), PixelColor::new(127, 127, 0, 255));
    assert_eq!(PixelColor::gradient(2, 4, &colors), PixelColor::green());
    assert_eq!(PixelColor::gradient(3, 4, &colors), PixelColor::new(0, 127, 127, 255));
    assert_eq!(PixelColor::gradient(4, 4, &colors), PixelColor::new(0, 0, 254, 255));
}

#[test]
fn falling_channel_truncates_down() {
    let colors = vec![PixelColor::white(), PixelColor::black()];
    assert_eq!(PixelColor::gradient(1, 3, &colors), PixelColor::new(170, 170, 170, 255));
}

#[test]
fn palette_values() {
    assert_eq!(PixelColor::black(), PixelColor::new(0, 0, 0, 255));
    assert_eq!(PixelColor::white(), PixelColor::new(255, 255, 255, 255));
    assert_eq!(PixelColor::cyan(), PixelColor::new(0, 255, 255, 255));
    assert_eq!(PixelColor::magenta(), PixelColor::new(255, 0, 255, 255));
    assert_eq!(PixelColor::yellow(), PixelColor::new(255, 255, 0, 255));
}
