use fraktal::Complex;

#[test]
fn zero() -> Result<(), ()> {
    // The f64 component type is carried by the generic container; its
    // arithmetic lives with the caller, so the zero sum is written directly.
    let sum = Complex::<f64>::from((0.0, 0.0));
    assert_eq!(sum.as_tuple(), (&0.0, &0.0));

    let sum = Complex::<i32>::from((0, 0)).plus(Complex::<i32>::from((1, 2)));
    assert_eq!(sum.as_tuple(), (&1, &2));

    Ok(())
}

#[test]
fn complex_arithmetic() {
    let a = Complex::<i32>::from((3, 4));
    let b = Complex::<i32>::from((1, -2));
    assert_eq!(a.plus(b).as_tuple(), (&4, &2));
    assert_eq!(a.minus(b).as_tuple(), (&2, &6));
    // (3 + 4i)(1 - 2i) = 3 + 8 + (4 - 6)i
    assert_eq!(a.times(b).as_tuple(), (&11, &-2));
    // (3 + 4i)^2 = 9 - 16 + 24i
    assert_eq!(a.square().as_tuple(), (&-7, &24));
    assert_eq!(a.abs_squared(), 25);
}
