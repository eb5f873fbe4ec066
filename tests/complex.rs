use mandelbrot::Complex;

#[test]
fn accessors_read_and_write_parts() {
    let mut c = Complex::new(3i64, -4i64);
    assert_eq!(*c.re(), 3);
    assert_eq!(*c.im(), -4);
    *c.re_mut() = 5;
    *c.im_mut() = 6;
    assert_eq!((c.re, c.im), (5, 6));
}

#[test]
fn norm_is_squared_modulus() {
    assert_eq!(Complex::new(3i64, -4i64).norm(), 25);
    assert_eq!(Complex::new(0i64, 0i64).norm(), 0);
}

#[test]
fn conj_negates_imaginary_part() {
    let c = Complex::new(2i64, 7i64).conj();
    assert_eq!((c.re, c.im), (2, -7));
}
