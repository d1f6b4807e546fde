//! A minimal complex-number pair. The container is generic so it can carry
//! any component type (the engine stores `f64` bit patterns as `u64`);
//! arithmetic is provided for `i32` components, with the floating-point
//! variant left to the caller.

use vstd::prelude::*;

verus! {

/// A complex number, or any plain pair of equally-typed components.
#[derive(Clone, Copy, Debug)]
pub struct Complex<Num> {
    pub re: Num,
    pub im: Num,
}

/// Components small enough that products of two of them, doubled, stay
/// within `i32`.
pub open spec fn complex_i32_bounded(c: Complex<i32>) -> bool {
    -0x7fff <= c.re <= 0x7fff && -0x7fff <= c.im <= 0x7fff
}

impl<Num> Complex<Num> {
    /// Borrow both components.
    pub fn as_tuple(&self) -> (r: (&Num, &Num))
        ensures
            r.0 == &self.re,
            r.1 == &self.im,
    {
        (&self.re, &self.im)
    }
}

impl<Num> From<(Num, Num)> for Complex<Num> {
    /// Assemble a complex number from `(re, im)`.
    fn from(t: (Num, Num)) -> (r: Self) {
        Complex { re: t.0, im: t.1 }
    }
}

impl<Num> vstd::std_specs::convert::FromSpecImpl<(Num, Num)> for Complex<Num> {
    open spec fn obeys_from_spec() -> bool {
        true
    }

    open spec fn from_spec(t: (Num, Num)) -> Self {
        Complex { re: t.0, im: t.1 }
    }
}

impl Complex<i32> {
    /// Componentwise sum.
    pub fn plus(self, rhs: Self) -> (r: Self)
        requires
            i32::MIN <= self.re + rhs.re <= i32::MAX,
            i32::MIN <= self.im + rhs.im <= i32::MAX,
        ensures
            r.re == self.re + rhs.re,
            r.im == self.im + rhs.im,
    {
        Complex { re: self.re + rhs.re, im: self.im + rhs.im }
    }

    /// Componentwise difference.
    pub fn minus(self, rhs: Self) -> (r: Self)
        requires
            i32::MIN <= self.re - rhs.re <= i32::MAX,
            i32::MIN <= self.im - rhs.im <= i32::MAX,
        ensures
            r.re == self.re - rhs.re,
            r.im == self.im - rhs.im,
    {
        Complex { re: self.re - rhs.re, im: self.im - rhs.im }
    }

    /// Complex product.
    pub fn times(self, rhs: Self) -> (r: Self)
        requires
            complex_i32_bounded(self),
            complex_i32_bounded(rhs),
        ensures
            r.re == self.re * rhs.re - self.im * rhs.im,
            r.im == self.re * rhs.im + self.im * rhs.re,
    {
        proof {
            lemma_complex_products_fit(self.re as int, self.im as int, rhs.re as int, rhs.im as int);
        }
        Complex { re: self.re * rhs.re - self.im * rhs.im, im: self.re * rhs.im + self.im
            * rhs.re }
    }

    /// The square of this number, written with one multiplication per
    /// component pair.
    pub fn square(self) -> (r: Self)
        requires
            complex_i32_bounded(self),
        ensures
            r.re == self.re * self.re - self.im * self.im,
            r.im == self.re * self.im + self.im * self.re,
    {
        self.times(self)
    }

    /// The squared magnitude `re * re + im * im`.
    pub fn abs_squared(&self) -> (r: i32)
        requires
            complex_i32_bounded(*self),
        ensures
            r == self.re * self.re + self.im * self.im,
    {
        proof {
            lemma_complex_products_fit(self.re as int, self.im as int, self.re as int, self.im as int);
        }
        let a = self.re * self.re;
        let b = self.im * self.im;
        a + b
    }
}

/// Sums and differences of products of bounded components stay within
/// `i32`.
proof fn lemma_complex_products_fit(a: int, b: int, c: int, d: int)
    requires
        -0x7fff <= a <= 0x7fff,
        -0x7fff <= b <= 0x7fff,
        -0x7fff <= c <= 0x7fff,
        -0x7fff <= d <= 0x7fff,
    ensures
        i32::MIN <= a * c - b * d <= i32::MAX,
        i32::MIN <= a * d + b * c <= i32::MAX,
        -0x3fff_0001 <= a * c <= 0x3fff_0001,
        -0x3fff_0001 <= b * d <= 0x3fff_0001,
        -0x3fff_0001 <= a * d <= 0x3fff_0001,
        -0x3fff_0001 <= b * c <= 0x3fff_0001,
{
    assert(-0x3fff_0001 <= a * c <= 0x3fff_0001 && -0x3fff_0001 <= b * d <= 0x3fff_0001
        && -0x3fff_0001 <= a * d <= 0x3fff_0001 && -0x3fff_0001 <= b * c <= 0x3fff_0001)
        by (nonlinear_arith)
        requires
            -0x7fff <= a <= 0x7fff && -0x7fff <= b <= 0x7fff && -0x7fff <= c <= 0x7fff && -0x7fff
                <= d <= 0x7fff,
    ;
}

} // verus!
