use vstd::prelude::*;
use vstd::arithmetic::div_mod::lemma_fundamental_div_mod;
use vstd::arithmetic::div_mod::lemma_fundamental_div_mod_converse;
use crate::bignum::prefix_value;
use crate::bignum::radix;
use crate::machine::word;
use crate::montgomery::in_reach;
use crate::montgomery::partial_product;
use crate::montgomery::quotient_digit;
use crate::montgomery::reduce_step;

verus! {

/// Whether `inverse` is the inverse that the reduction needs for the
/// modulus `m`: `inverse * m = -1 (mod 2^64)`.
pub open spec fn inverse_fits(m: int, inverse: u64) -> bool {
    (inverse * m + 1) % word() == 0
}

/// With the right inverse a reduction step divides without remainder.
pub proof fn lemma_reduce_step_exact(u: int, m: int, inverse: u64)
    requires
        inverse_fits(m, inverse),
    ensures
        reduce_step(u, m, inverse) * word() == u + quotient_digit(u, inverse) * m,
{
    let w = word();
    let u0 = u % w;
    let k1 = u / w;
    let q = quotient_digit(u, inverse);
    let k2 = (inverse * u0) / w;
    let k3 = (inverse * m + 1) / w;
    lemma_fundamental_div_mod(u, w);
    lemma_fundamental_div_mod(inverse * u0, w);
    lemma_fundamental_div_mod(inverse * m + 1, w);
    let k = u0 * k3 + k1 - k2 * m;
    assert(u + q * m == w * k) by (nonlinear_arith)
        requires
            u == w * k1 + u0,
            inverse * u0 == w * k2 + q,
            inverse * m + 1 == w * k3,
            k == u0 * k3 + k1 - k2 * m,
    ;
    assert(w * k == k * w + 0) by (nonlinear_arith);
    lemma_fundamental_div_mod_converse(u + q * m, w, k, 0);
}

/// With the right inverse, the sum after `n` iterations, `n` words higher,
/// is the product of the first `n` words of `a` and `b`, up to a multiple of
/// the modulus, which is returned.
pub proof fn lemma_partial_product_congruent(
    a: Seq<u64>,
    b: int,
    m: int,
    inverse: u64,
    n: nat,
) -> (k: int)
    requires
        inverse_fits(m, inverse),
    ensures
        partial_product(a, b, m, inverse, n) * radix(n) == prefix_value(a, n) * b + k * m,
    decreases n,
{
    if n == 0 {
        assert(partial_product(a, b, m, inverse, 0) * radix(0) == 0);
        assert(prefix_value(a, 0) * b + 0 * m == 0) by (nonlinear_arith)
            requires
                prefix_value(a, 0) == 0,
        ;
        0
    } else {
        let k0 = lemma_partial_product_congruent(a, b, m, inverse, (n - 1) as nat);
        let t0 = partial_product(a, b, m, inverse, (n - 1) as nat);
        let t1 = partial_product(a, b, m, inverse, n);
        let x = a[n - 1] as int;
        let u = t0 + x * b;
        let q = quotient_digit(u, inverse);
        let r = radix((n - 1) as nat) as int;
        let p0 = prefix_value(a, (n - 1) as nat) as int;
        lemma_reduce_step_exact(u, m, inverse);
        let w = word();
        assert(radix(n) == r * w);
        assert(prefix_value(a, n) == p0 + x * r) by (nonlinear_arith)
            requires
                prefix_value(a, n) == p0 + (x as nat) * (r as nat),
                x >= 0,
                r >= 0,
        ;
        let k = k0 + q * r;
        assert(t1 * (r * w) == (t1 * w) * r) by (nonlinear_arith);
        assert((t0 + x * b + q * m) * r == t0 * r + (x * b) * r + (q * m) * r)
            by (nonlinear_arith);
        assert((x * b) * r == (x * r) * b) by (nonlinear_arith);
        assert((q * m) * r == (q * r) * m) by (nonlinear_arith);
        assert((p0 + x * r) * b == p0 * b + (x * r) * b) by (nonlinear_arith);
        assert((k0 + q * r) * m == k0 * m + (q * r) * m) by (nonlinear_arith);
        k
    }
}

/// The sum after any number of iterations is below the modulus plus the
/// second factor.
pub proof fn lemma_partial_product_bound(a: Seq<u64>, b: int, m: int, inverse: u64, n: nat)
    requires
        0 <= b,
        0 <= m,
        0 < m + b,
    ensures
        0 <= partial_product(a, b, m, inverse, n) < m + b,
    decreases n,
{
    if n > 0 {
        lemma_partial_product_bound(a, b, m, inverse, (n - 1) as nat);
        let t0 = partial_product(a, b, m, inverse, (n - 1) as nat);
        let x = a[n - 1] as int;
        let u = t0 + x * b;
        let q = quotient_digit(u, inverse);
        let w = word();
        let total = u + q * m;
        assert(0 <= total <= w * (m + b) - 1) by (nonlinear_arith)
            requires
                total == t0 + x * b + q * m,
                0 <= t0 <= m + b - 1,
                0 <= x <= w - 1,
                0 <= q <= w - 1,
                0 <= b,
                0 <= m,
        ;
        lemma_fundamental_div_mod(total, w);
        let d = total / w;
        assert(0 <= d < m + b) by (nonlinear_arith)
            requires
                total == w * d + total % w,
                0 <= total % w < w,
                0 <= total <= w * (m + b) - 1,
                w == 0x1_0000_0000_0000_0000,
        ;
    }
}

/// Where the modulus and the second factor together are at most
/// `2^(64 limbs)`, the sum has room in the accumulators after every
/// iteration.
pub proof fn lemma_room_for_every_sum(a: Seq<u64>, b: int, m: int, inverse: u64)
    requires
        0 <= b,
        0 <= m,
        0 < m + b <= radix(a.len()),
    ensures
        in_reach(a, b, m, inverse),
{
    assert forall|n: nat| 1 <= n <= a.len() implies #[trigger] partial_product(
        a,
        b,
        m,
        inverse,
        n,
    ) < radix(a.len()) by {
        lemma_partial_product_bound(a, b, m, inverse, n);
    }
}

/// Twice a number, shifted `e` times.
pub open spec fn doubled(x: int, e: nat) -> int
    decreases e,
{
    if e == 0 {
        x
    } else {
        2 * doubled(x, (e - 1) as nat)
    }
}

/// Modulo an odd number a factor two cancels.
pub proof fn lemma_two_cancels(m: int, x: int, y: int)
    requires
        m > 0,
        m % 2 == 1,
        (2 * x) % m == (2 * y) % m,
    ensures
        x % m == y % m,
{
    let d = x - y;
    lemma_fundamental_div_mod(2 * x, m);
    lemma_fundamental_div_mod(2 * y, m);
    let k = (2 * x) / m - (2 * y) / m;
    assert(2 * d == m * k) by (nonlinear_arith)
        requires
            2 * x == m * ((2 * x) / m) + (2 * x) % m,
            2 * y == m * ((2 * y) / m) + (2 * y) % m,
            (2 * x) % m == (2 * y) % m,
            d == x - y,
            k == (2 * x) / m - (2 * y) / m,
    ;
    let h = m / 2;
    assert(m == 2 * h + 1);
    assert(m * k == 2 * (h * k) + k) by (nonlinear_arith)
        requires
            m == 2 * h + 1,
    ;
    let half = d - h * k;
    assert(k == 2 * half);
    assert(d == m * half) by (nonlinear_arith)
        requires
            2 * d == m * k,
            k == 2 * half,
    ;
    lemma_fundamental_div_mod(y, m);
    let qy = y / m;
    assert(x == (qy + half) * m + y % m) by (nonlinear_arith)
        requires
            x - y == m * half,
            y == m * qy + y % m,
    ;
    lemma_fundamental_div_mod_converse(x, m, qy + half, y % m);
}

/// Modulo an odd number a power of two cancels.
pub proof fn lemma_doubling_cancels(m: int, x: int, y: int, e: nat)
    requires
        m > 0,
        m % 2 == 1,
        doubled(x, e) % m == doubled(y, e) % m,
    ensures
        x % m == y % m,
    decreases e,
{
    if e > 0 {
        lemma_two_cancels(m, doubled(x, (e - 1) as nat), doubled(y, (e - 1) as nat));
        lemma_doubling_cancels(m, x, y, (e - 1) as nat);
    }
}

proof fn lemma_doubled_is_product(x: int, e: nat)
    ensures
        doubled(x, e) == x * vstd::arithmetic::power2::pow2(e),
    decreases e,
{
    vstd::arithmetic::power2::lemma_pow2(e);
    if e == 0 {
        assert(vstd::arithmetic::power2::pow2(0) == 1) by {
            vstd::arithmetic::power2::lemma2_to64();
        }
    } else {
        lemma_doubled_is_product(x, (e - 1) as nat);
        vstd::arithmetic::power2::lemma_pow2_unfold(e);
        let p = vstd::arithmetic::power2::pow2((e - 1) as nat) as int;
        assert(2 * (x * p) == x * (2 * p)) by (nonlinear_arith);
    }
}

/// Modulo an odd number the weight of a word cancels.
pub proof fn lemma_radix_cancels(m: int, x: int, y: int, n: nat)
    requires
        m > 0,
        m % 2 == 1,
        (x * radix(n)) % m == (y * radix(n)) % m,
    ensures
        x % m == y % m,
    decreases n,
{
    if n > 0 {
        let r = radix((n - 1) as nat) as int;
        let w = word();
        assert(radix(n) == r * w);
        vstd::arithmetic::power2::lemma2_to64();
        vstd::arithmetic::power2::lemma2_to64_rest();
        lemma_doubled_is_product(x * r, 64);
        lemma_doubled_is_product(y * r, 64);
        assert((x * r) * w == x * (r * w)) by (nonlinear_arith);
        assert((y * r) * w == y * (r * w)) by (nonlinear_arith);
        lemma_doubling_cancels(m, x * r, y * r, 64);
        lemma_radix_cancels(m, x, y, (n - 1) as nat);
    } else {
        assert(x * 1 == x && y * 1 == y);
    }
}

} // verus!
