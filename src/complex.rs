use vstd::prelude::*;

verus! {

/// A complex number with real part `re` and imaginary part `im`.
#[derive(Debug, Clone, Copy)]
pub struct Complex<T> {
    pub re: T,
    pub im: T,
}

impl<T> Complex<T> {
    pub fn new(re: T, im: T) -> (r: Complex<T>)
        ensures
            r.re == re,
            r.im == im,
    {
        Complex { re, im }
    }

    pub fn im(&self) -> (r: &T)
        ensures
            *r == self.im,
    {
        &self.im
    }

    pub fn re(&self) -> (r: &T)
        ensures
            *r == self.re,
    {
        &self.re
    }

    pub fn im_mut(&mut self) -> (r: &mut T)
        ensures
            *r == old(self).im,
            *final(self) == (Complex { re: old(self).re, im: *final(r) }),
    {
        &mut self.im
    }

    pub fn re_mut(&mut self) -> (r: &mut T)
        ensures
            *r == old(self).re,
            *final(self) == (Complex { re: *final(r), im: old(self).im }),
    {
        &mut self.re
    }
}

impl Complex<i64> {
    /// The squared modulus `re * re + im * im`.
    pub fn norm(&self) -> (r: i64)
        requires
            self.re * self.re + self.im * self.im <= i64::MAX,
        ensures
            r == self.re * self.re + self.im * self.im,
    {
        assert(0 <= self.re * self.re && 0 <= self.im * self.im) by (nonlinear_arith);
        self.re * self.re + self.im * self.im
    }

    /// The conjugate: the same real part, the imaginary part negated.
    pub fn conj(&self) -> (r: Complex<i64>)
        requires
            self.im > i64::MIN,
        ensures
            r.re == self.re,
            r.im == -self.im,
    {
        Complex { re: self.re, im: -self.im }
    }
}

} // verus!
