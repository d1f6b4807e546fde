use fraktal::math::Gcd;
use fraktal::math::NextCoprime;

#[test]
fn gcd_examples() {
    let a: u64 = 12;
    let b: u64 = 8;
    assert_eq!(a.gcd(b), 4);
    assert_eq!(b.gcd(a), 4);

    let a: u64 = 12;
    let b: u64 = 5;
    assert_eq!(a.gcd(b), 1);
    assert_eq!(b.gcd(a), 1);

    assert_eq!(0u64.gcd(9), 9);
    assert_eq!(9u64.gcd(0), 9);
}

#[test]
fn next_coprime_examples() {
    let a: u64 = 12;
    let b: u64 = 2;
    assert_eq!(a.next_coprime(b), 13);
    assert_eq!(b.next_coprime(a), 5);

    let a: u64 = 12;
    let b: u64 = 5;
    assert_eq!(a.next_coprime(b), 12);
    assert_eq!(b.next_coprime(a), 5);
}
