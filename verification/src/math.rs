//! Small number-theory helpers: greatest common divisor and the next value
//! coprime to a given one.

use vstd::prelude::*;

verus! {

/// Euclid's greatest common divisor.
pub open spec fn spec_gcd(a: nat, b: nat) -> nat
    decreases b,
{
    if b == 0 {
        a
    } else {
        spec_gcd(b, a % b)
    }
}

/// The gcd never exceeds the sum of its arguments.
pub proof fn lemma_gcd_le(a: nat, b: nat)
    ensures
        spec_gcd(a, b) <= a + b,
    decreases b,
{
    if b != 0 {
        lemma_gcd_le(b, a % b);
        vstd::arithmetic::div_mod::lemma_mod_decreases(a, b);
    }
}

/// The gcd of two numbers, at least one positive, is positive.
pub proof fn lemma_gcd_pos(a: nat, b: nat)
    requires
        a > 0 || b > 0,
    ensures
        spec_gcd(a, b) >= 1,
    decreases b,
{
    if b != 0 {
        lemma_gcd_pos(b, a % b);
    }
}

/// The gcd does not depend on the order of its arguments.
pub proof fn lemma_gcd_comm(a: nat, b: nat)
    ensures
        spec_gcd(a, b) == spec_gcd(b, a),
{
    if a == 0 && b == 0 {
    } else if a == 0 {
        assert(spec_gcd(0, b) == spec_gcd(b, 0));
    } else if b == 0 {
        assert(spec_gcd(a, 0) == spec_gcd(0, a));
    } else if a == b {
        assert(spec_gcd(a, b) == spec_gcd(b, a % b));
    } else if a < b {
        vstd::arithmetic::div_mod::lemma_small_mod(a, b);
        assert(a % b == a);
        assert(spec_gcd(a, b) == spec_gcd(b, a));
    } else {
        vstd::arithmetic::div_mod::lemma_small_mod(b, a);
        assert(b % a == b);
        assert(spec_gcd(b, a) == spec_gcd(a, b));
    }
}

/// Any number one more than a multiple of `d` is coprime to `d`.
pub proof fn lemma_gcd_of_mod_one(d: nat, t: nat)
    requires
        d >= 1,
        t % d == 1nat % d,
    ensures
        spec_gcd(d, t) == 1,
{
    if d == 1 {
        if t == 0 {
            assert(spec_gcd(1, 0) == 1);
        } else if t == 1 {
            assert(spec_gcd(1, 1) == spec_gcd(1, 0));
        } else {
            vstd::arithmetic::div_mod::lemma_small_mod(1, t);
            assert(1nat % t == 1);
            assert(spec_gcd(1, t) == spec_gcd(t, 1));
            assert(spec_gcd(t, 1) == spec_gcd(1, t % 1));
            assert(t % 1 == 0) by {
                vstd::arithmetic::div_mod::lemma_mod_self_0(t as int);
            }
        }
    } else {
        vstd::arithmetic::div_mod::lemma_small_mod(1, d);
        assert(1nat % d == 1);
        assert(t % d == 1);
        assert(t >= 1) by {
            if t == 0 {
                assert(0nat % d == 0) by {
                    vstd::arithmetic::div_mod::lemma_mod_bound(0, d as int);
                    vstd::arithmetic::div_mod::lemma_fundamental_div_mod_converse_mod(
                        0,
                        d as int,
                        0,
                        0,
                    );
                }
            }
        }
        lemma_gcd_comm(d, t);
        assert(spec_gcd(t, d) == spec_gcd(d, t % d));
        assert(spec_gcd(d, 1) == spec_gcd(1, d % 1));
        assert(d % 1 == 0) by {
            vstd::arithmetic::div_mod::lemma_mod_self_0(d as int);
        }
    }
}

/// Greatest common divisor.
pub trait Gcd: Sized {
    /// What `gcd` returns.
    spec fn gcd_spec(self, other: Self) -> Self;

    /// Return the greatest common divisor of `self` and `other`.
    fn gcd(self, other: Self) -> (r: Self)
        ensures
            r == self.gcd_spec(other),
    ;
}

/// Smallest coprime value at or above a starting point.
pub trait NextCoprime: Sized {
    /// The inputs on which `next_coprime` terminates without overflow.
    spec fn next_coprime_ok(self, other: Self) -> bool;

    /// Whether `r` is the smallest value at or above `self` coprime to
    /// `other`.
    spec fn is_next_coprime(self, other: Self, r: Self) -> bool;

    /// Return the smallest `N` such that `N >= self` and `N` is coprime to
    /// `other`.
    fn next_coprime(self, other: Self) -> (r: Self)
        requires
            self.next_coprime_ok(other),
        ensures
            self.is_next_coprime(other, r),
    ;
}

impl Gcd for u64 {
    open spec fn gcd_spec(self, other: u64) -> u64 {
        spec_gcd(self as nat, other as nat) as u64
    }

    fn gcd(self, other: u64) -> (r: u64) {
        gcd_u64(self, other)
    }
}

impl NextCoprime for u64 {
    open spec fn next_coprime_ok(self, other: u64) -> bool {
        other >= 1 && self + other <= u64::MAX
    }

    open spec fn is_next_coprime(self, other: u64, r: u64) -> bool {
        &&& r >= self
        &&& spec_gcd(other as nat, r as nat) == 1
        &&& forall|j: int| self <= j < r ==> #[trigger] spec_gcd(other as nat, j as nat) != 1
    }

    fn next_coprime(self, other: u64) -> (r: u64) {
        next_coprime_u64(self, other)
    }
}

/// Iterative Euclid's algorithm.
fn gcd_u64(a: u64, b: u64) -> (r: u64)
    ensures
        r == spec_gcd(a as nat, b as nat),
{
    let mut x = a;
    let mut y = b;
    while y != 0
        invariant
            spec_gcd(x as nat, y as nat) == spec_gcd(a as nat, b as nat),
        decreases y,
    {
        let t = x % y;
        x = y;
        y = t;
    }
    proof {
        lemma_gcd_le(a as nat, b as nat);
    }
    x
}

/// Count up from `start` until a value coprime to `dividee` is found. A
/// value congruent to one modulo `dividee` lies at most `dividee - 1` steps
/// up, so the search stops before `start + dividee`.
fn next_coprime_u64(start: u64, dividee: u64) -> (r: u64)
    requires
        dividee >= 1,
        start + dividee <= u64::MAX,
    ensures
        r >= start,
        spec_gcd(dividee as nat, r as nat) == 1,
        forall|j: int| start <= j < r ==> #[trigger] spec_gcd(dividee as nat, j as nat) != 1,
{
    let ghost d_int: int = dividee as int;
    let ghost target: int = start + ((1int % d_int) + d_int - (start as int % d_int)) % d_int;
    proof {
        vstd::arithmetic::div_mod::lemma_mod_bound(start as int, d_int);
        vstd::arithmetic::div_mod::lemma_mod_bound(1, d_int);
        vstd::arithmetic::div_mod::lemma_mod_bound(
            (1int % d_int) + d_int - (start as int % d_int),
            d_int,
        );
        assert(target % (dividee as int) == 1int % (dividee as int)) by {
            let d = dividee as int;
            let s = start as int;
            let delta = ((1int % d) + d - s % d) % d;
            vstd::arithmetic::div_mod::lemma_fundamental_div_mod(s, d);
            vstd::arithmetic::div_mod::lemma_fundamental_div_mod((1int % d) + d - s % d, d);
            let q1 = ((1int % d) + d - s % d) / d;
            assert(delta == (1int % d) + d - s % d - q1 * d) by {
                assert(d * q1 == q1 * d) by (nonlinear_arith);
            }
            let q0 = s / d;
            assert(s + delta == (q0 + 1 - q1) * d + (1int % d)) by {
                assert(d * q0 == q0 * d) by (nonlinear_arith);
                assert((q0 + 1 - q1) * d == q0 * d + d - q1 * d) by (nonlinear_arith);
            }
            vstd::arithmetic::div_mod::lemma_fundamental_div_mod_converse_mod(
                s + delta,
                d,
                q0 + 1 - q1,
                1int % d,
            );
        }
        lemma_gcd_of_mod_one(dividee as nat, target as nat);
    }
    let mut n = start;
    while gcd_u64(dividee, n) > 1
        invariant
            start <= n <= target,
            target < start + dividee,
            target % (dividee as int) == 1int % (dividee as int),
            spec_gcd(dividee as nat, target as nat) == 1,
            dividee >= 1,
            start + dividee <= u64::MAX,
            forall|j: int| start <= j < n ==> #[trigger] spec_gcd(dividee as nat, j as nat) != 1,
        decreases target - n,
    {
        proof {
            assert(n != target);
        }
        n = n + 1;
    }
    proof {
        lemma_gcd_pos(dividee as nat, n as nat);
    }
    n
}

} // verus!
