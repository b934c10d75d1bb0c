//! The odd-kernel canonicalization: every positive integer is represented by
//! its odd part, since power-of-two shifts are free in the adder model.

use vstd::prelude::*;
use vstd::arithmetic::power2::pow2;

verus! {

/// The product of two odd numbers is odd.
pub proof fn lemma_odd_mul(a: int, b: int)
    requires
        a % 2 == 1,
        b % 2 == 1,
    ensures
        (a * b) % 2 == 1,
{
    let k = a / 2;
    let l = b / 2;
    assert(a == 2 * k + 1);
    assert(b == 2 * l + 1);
    assert(a * b == 2 * (2 * k * l + k + l) + 1) by (nonlinear_arith)
        requires
            a == 2 * k + 1,
            b == 2 * l + 1,
    ;
}

/// The odd kernel of `n`: `n` halved until odd; 0 stays 0.
pub open spec fn odd_kernel(n: nat) -> nat
    decreases n,
{
    if n == 0 {
        0
    } else if n % 2 == 0 {
        odd_kernel(n / 2)
    } else {
        n
    }
}

/// The odd kernel of a positive number is odd.
pub proof fn lemma_odd_kernel_odd(n: nat)
    requires
        n > 0,
    ensures
        odd_kernel(n) % 2 == 1,
        odd_kernel(n) > 0,
    decreases n,
{
    if n % 2 == 0 {
        lemma_odd_kernel_odd(n / 2);
    }
}

/// The odd kernel never exceeds the number itself.
pub proof fn lemma_odd_kernel_le(n: nat)
    ensures
        odd_kernel(n) <= n,
    decreases n,
{
    if n > 0 && n % 2 == 0 {
        lemma_odd_kernel_le(n / 2);
    }
}

/// Doubling a number does not change its odd kernel.
pub proof fn lemma_odd_kernel_double(n: nat)
    ensures
        odd_kernel(2 * n) == odd_kernel(n),
{
    if n == 0 {
    } else {
        assert((2 * n) % 2 == 0);
        assert((2 * n) / 2 == n);
    }
}

/// Shifting left by any amount does not change the odd kernel.
pub proof fn lemma_odd_kernel_shift(n: nat, s: nat)
    ensures
        odd_kernel(n * pow2(s)) == odd_kernel(n),
    decreases s,
{
    if s == 0 {
        assert(pow2(0) == 1) by {
            vstd::arithmetic::power2::lemma2_to64();
        }
    } else {
        lemma_odd_kernel_shift(n, (s - 1) as nat);
        assert(pow2(s) == 2 * pow2((s - 1) as nat)) by {
            vstd::arithmetic::power2::lemma_pow2_unfold(s);
        }
        assert(n * pow2(s) == 2 * (n * pow2((s - 1) as nat))) by (nonlinear_arith)
            requires
                pow2(s) == 2 * pow2((s - 1) as nat),
        ;
        lemma_odd_kernel_double(n * pow2((s - 1) as nat));
    }
}

/// Every power of two has odd kernel 1.
pub proof fn lemma_odd_kernel_pow2(k: nat)
    ensures
        odd_kernel(pow2(k)) == 1,
{
    lemma_odd_kernel_shift(1, k);
    assert(1 * pow2(k) == pow2(k));
}

/// The odd kernel of `n`, computed by halving until odd.
#[inline]
pub fn findodd(n: usize) -> (r: usize)
    ensures
        r as nat == odd_kernel(n as nat),
        r <= n,
        n > 0 ==> r % 2 == 1 && r > 0,
{
    proof {
        lemma_odd_kernel_le(n as nat);
        if n > 0 {
            lemma_odd_kernel_odd(n as nat);
        }
    }
    if n == 0 {
        return 0;
    }
    let mut m: usize = n;
    while m % 2 == 0
        invariant
            m > 0,
            odd_kernel(m as nat) == odd_kernel(n as nat),
        decreases m,
    {
        m = m / 2;
    }
    m
}

/// The odd kernel of `n`, in 128-bit arithmetic for wide intermediates.
#[inline]
pub fn findodd_u128(n: u128) -> (r: u128)
    ensures
        r as nat == odd_kernel(n as nat),
        r <= n,
        n > 0 ==> r % 2 == 1 && r > 0,
{
    proof {
        lemma_odd_kernel_le(n as nat);
        if n > 0 {
            lemma_odd_kernel_odd(n as nat);
        }
    }
    if n == 0 {
        return 0;
    }
    let mut m: u128 = n;
    while m % 2 == 0
        invariant
            m > 0,
            odd_kernel(m as nat) == odd_kernel(n as nat),
        decreases m,
    {
        m = m / 2;
    }
    m
}

} // verus!
