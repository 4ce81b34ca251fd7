use vstd::prelude::*;

verus! {

/// `d` divides `n` exactly.
pub open spec fn divides(d: int, n: int) -> bool {
    d != 0 && n % d == 0
}

/// `n` is prime: at least 2, with no divisor strictly between 1 and `n`.
pub open spec fn is_prime_spec(n: nat) -> bool {
    n >= 2 && forall|d: int| 2 <= d < n ==> !divides(d, n as int)
}

/// A number with no divisor in `[2, i)`, where `i * i > n`, has no divisor in `[2, n)`:
/// any divisor `d >= i` would pair with a divisor `n / d < i`.
proof fn lemma_small_divisors_suffice(n: int, i: int)
    requires
        n >= 2,
        i >= 2,
        i * i > n,
        forall|d: int| 2 <= d < i ==> !divides(d, n),
    ensures
        forall|d: int| 2 <= d < n ==> !divides(d, n),
{
    assert forall|d: int| 2 <= d < n implies !divides(d, n) by {
        if d >= i && divides(d, n) {
            let q = n / d;
            assert(n == d * q) by (nonlinear_arith)
                requires
                    d > 0,
                    n % d == 0,
                    q == n / d,
            ;
            assert(q >= 2) by (nonlinear_arith)
                requires
                    n == d * q,
                    d < n,
                    d > 0,
            ;
            assert(q < i) by (nonlinear_arith)
                requires
                    n == d * q,
                    d >= i,
                    i * i > n,
                    q >= 2,
                    i >= 2,
            ;
            assert(n % q == 0) by (nonlinear_arith)
                requires
                    n == d * q,
                    q > 0,
            ;
            assert(divides(q, n));
        }
    }
}

/// An odd number has no even divisor.
proof fn lemma_odd_has_no_even_divisor(n: int, d: int)
    requires
        n % 2 == 1,
        d >= 2,
        d % 2 == 0,
    ensures
        !divides(d, n),
{
    if n % d == 0 {
        let q = n / d;
        let h = d / 2;
        assert(n == d * q) by (nonlinear_arith)
            requires
                d > 0,
                n % d == 0,
                q == n / d,
        ;
        assert(d == 2 * h);
        assert(n == 2 * (h * q)) by (nonlinear_arith)
            requires
                n == d * q,
                d == 2 * h,
        ;
    }
}

/// Decides primality by trial division with odd divisors up to the integer square root.
pub fn is_prime(n: u64) -> (r: bool)
    ensures
        r == is_prime_spec(n as nat),
{
    if n < 2 {
        return false;
    }
    if n == 2 {
        assert forall|d: int| 2 <= d < 2 implies !divides(d, 2) by {}
        return true;
    }
    if n % 2 == 0 {
        assert(divides(2, n as int));
        return false;
    }
    let mut i: u64 = 3;
    while i <= n / i
        invariant
            3 <= i,
            i % 2 == 1,
            n >= 3,
            n % 2 == 1,
            forall|d: int| 2 <= d < i ==> !divides(d, n as int),
        decreases n - i,
    {
        assert(i * i <= n) by (nonlinear_arith)
            requires
                i <= n / i,
                i > 0,
        ;
        if n % i == 0 {
            assert(divides(i as int, n as int));
            assert(i < n) by (nonlinear_arith)
                requires
                    i * i <= n,
                    i >= 3,
            ;
            return false;
        }
        proof {
            lemma_odd_has_no_even_divisor(n as int, i + 1);
        }
        assert(i + 2 <= n) by (nonlinear_arith)
            requires
                i * i <= n,
                i >= 3,
        ;
        i = i + 2;
    }
    proof {
        assert(i * i > n) by (nonlinear_arith)
            requires
                i > n / i,
                i > 0,
        ;
        lemma_small_divisors_suffice(n as int, i as int);
    }
    true
}

} // verus!
