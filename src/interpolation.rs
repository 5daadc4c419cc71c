//! Correctness of reconstruction: three shares of a polynomial of degree at
//! most two interpolate to its constant term.
use crate::error::BunkeysError;
use crate::field::{is_element, is_inverse, MODULUS};
use crate::polynomial::{all_elements, poly_value, power};
use crate::sharing::shares_of;
use crate::sharing::{
    den_product,
    field_inverse,
    invertible,
    lagrange_sum,
    lagrange_term,
    num_product,
    reconstruct_result,
};
use vstd::arithmetic::div_mod::{
    lemma_add_mod_noop,
    lemma_mod_multiples_vanish,
    lemma_mod_twice,
    lemma_mul_mod_noop,
    lemma_small_mod,
};
use vstd::prelude::*;

verus! {

/// `a` and `b` are congruent modulo the field prime.
pub open spec fn cong(a: int, b: int) -> bool {
    a % (MODULUS as int) == b % (MODULUS as int)
}

proof fn lemma_cong_mul(a: int, b: int, c: int, d: int)
    requires
        cong(a, c),
        cong(b, d),
    ensures
        cong(a * b, c * d),
{
    let p = MODULUS as int;
    lemma_mul_mod_noop(a, b, p);
    lemma_mul_mod_noop(c, d, p);
}

proof fn lemma_cong_add(a: int, b: int, c: int, d: int)
    requires
        cong(a, c),
        cong(b, d),
    ensures
        cong(a + b, c + d),
{
    let p = MODULUS as int;
    lemma_add_mod_noop(a, b, p);
    lemma_add_mod_noop(c, d, p);
}

proof fn lemma_cong_reduce(a: int)
    ensures
        cong(a % (MODULUS as int), a),
{
    lemma_mod_twice(a, MODULUS as int);
}

/// The Lagrange identities for three points, with denominators cleared: the
/// cleared basis numerators sum to the Vandermonde product, and weighted by
/// `x` or `x^2` they sum to zero.
proof fn lemma_cleared_identities(x0: int, x1: int, x2: int)
    ensures
        x1 * x2 * (x2 - x1) + x0 * x2 * (x0 - x2) + x0 * x1 * (x1 - x0) == ((x1 - x0) * (x2 - x0))
            * (x2 - x1),
        x0 * (x1 * x2 * (x2 - x1)) + x1 * (x0 * x2 * (x0 - x2)) + x2 * (x0 * x1 * (x1 - x0)) == 0,
        (x0 * x0) * (x1 * x2 * (x2 - x1)) + (x1 * x1) * (x0 * x2 * (x0 - x2)) + (x2 * x2) * (x0
            * x1 * (x1 - x0)) == 0,
{
    let k0 = x1 * x2 * (x2 - x1);
    let k1 = x0 * x2 * (x0 - x2);
    let k2 = x0 * x1 * (x1 - x0);
    assert(k0 == x1 * x2 * x2 - x1 * x1 * x2) by (nonlinear_arith)
        requires
            k0 == x1 * x2 * (x2 - x1),
    ;
    assert(k1 == x0 * x0 * x2 - x0 * x2 * x2) by (nonlinear_arith)
        requires
            k1 == x0 * x2 * (x0 - x2),
    ;
    assert(k2 == x0 * x1 * x1 - x0 * x0 * x1) by (nonlinear_arith)
        requires
            k2 == x0 * x1 * (x1 - x0),
    ;
    let q = (x1 - x0) * (x2 - x0);
    assert(q == x1 * x2 - x0 * x1 - x0 * x2 + x0 * x0) by (nonlinear_arith)
        requires
            q == (x1 - x0) * (x2 - x0),
    ;
    let v = q * (x2 - x1);
    assert(v == q * x2 - q * x1) by (nonlinear_arith)
        requires
            v == q * (x2 - x1),
    ;
    assert(q * x2 == x1 * x2 * x2 - x0 * x1 * x2 - x0 * x2 * x2 + x0 * x0 * x2) by (nonlinear_arith)
        requires
            q == x1 * x2 - x0 * x1 - x0 * x2 + x0 * x0,
    ;
    assert(q * x1 == x1 * x1 * x2 - x0 * x1 * x1 - x0 * x1 * x2 + x0 * x0 * x1) by (nonlinear_arith)
        requires
            q == x1 * x2 - x0 * x1 - x0 * x2 + x0 * x0,
    ;
    assert(v == x1 * x2 * x2 - x0 * x1 * x2 - x0 * x2 * x2 + x0 * x0 * x2 - x1 * x1 * x2 + x0
        * x1 * x1 + x0 * x1 * x2 - x0 * x0 * x1);
    assert(x0 * k0 == x0 * x1 * x2 * x2 - x0 * x1 * x1 * x2) by (nonlinear_arith)
        requires
            k0 == x1 * x2 * x2 - x1 * x1 * x2,
    ;
    assert(x1 * k1 == x0 * x0 * x1 * x2 - x0 * x1 * x2 * x2) by (nonlinear_arith)
        requires
            k1 == x0 * x0 * x2 - x0 * x2 * x2,
    ;
    assert(x2 * k2 == x0 * x1 * x1 * x2 - x0 * x0 * x1 * x2) by (nonlinear_arith)
        requires
            k2 == x0 * x1 * x1 - x0 * x0 * x1,
    ;
    assert((x0 * x0) * k0 == x0 * x0 * x1 * x2 * x2 - x0 * x0 * x1 * x1 * x2) by (nonlinear_arith)
        requires
            k0 == x1 * x2 * x2 - x1 * x1 * x2,
    ;
    assert((x1 * x1) * k1 == x0 * x0 * x1 * x1 * x2 - x0 * x1 * x1 * x2 * x2) by (nonlinear_arith)
        requires
            k1 == x0 * x0 * x2 - x0 * x2 * x2,
    ;
    assert((x2 * x2) * k2 == x0 * x1 * x1 * x2 * x2 - x0 * x0 * x1 * x2 * x2) by (nonlinear_arith)
        requires
            k2 == x0 * x1 * x1 - x0 * x0 * x1,
    ;
}

/// The value of a polynomial of degree two, spread over a factor.
proof fn lemma_spread(c0: int, c1: int, c2: int, x: int, k: int)
    ensures
        (c0 + c1 * x + c2 * (x * x)) * k == c0 * k + c1 * (x * k) + c2 * ((x * x) * k),
{
    assert((c0 + c1 * x + c2 * (x * x)) * k == c0 * k + c1 * (x * k) + c2 * ((x * x) * k))
        by (nonlinear_arith);
}

/// One share's term, times the cleared denominator, is congruent to the
/// share's value times its cleared basis numerator.
proof fn lemma_term_times_v(y: int, fx: int, n: int, d: int, m: int, v: int, t: int)
    requires
        cong(y, fx),
        is_inverse(d % (MODULUS as int), v, MODULUS as int),
        t == (y * (n % (MODULUS as int)) * v) % (MODULUS as int),
    ensures
        cong(t * (d * m), fx * n * m),
{
    let p = MODULUS as int;
    lemma_cong_reduce(n);
    lemma_cong_reduce(y * (n % p) * v);
    lemma_cong_mul(y, n % p, fx, n);
    lemma_cong_mul(y * (n % p), v, fx * n, v);
    // t ≡ fx * n * v
    lemma_cong_reduce(d);
    lemma_cong_mul(d % p, v, d, v);
    lemma_small_mod(1, p as nat);
    // d * v ≡ 1
    lemma_cong_mul(t, d * m, fx * n * v, d * m);
    assert((fx * n * v) * (d * m) == (fx * n * m) * (d * v)) by (nonlinear_arith);
    lemma_cong_mul(fx * n * m, d * v, fx * n * m, 1);
}

/// Reconstruction from three distinct shares of a polynomial of degree at most
/// two gives its constant term whenever it succeeds; it fails neither on the
/// range of the shares nor on their indices.
pub proof fn lemma_three_shares_reconstruct(c: Seq<u128>, pts: Seq<(u128, u128)>)
    requires
        c.len() == 3,
        all_elements(c),
        pts.len() == 3,
        forall|i: int| 0 <= i < 3 ==> is_element(#[trigger] pts[i].0 as int),
        forall|i: int| 0 <= i < 3 ==> #[trigger] pts[i].1 as int == poly_value(c, pts[i].0 as int) % (MODULUS as int),
        pts[0].0 != pts[1].0 && pts[0].0 != pts[2].0 && pts[1].0 != pts[2].0,
    ensures
        reconstruct_result(pts) != Err::<u128, BunkeysError>(BunkeysError::ShareOutOfRange),
        reconstruct_result(pts) != Err::<u128, BunkeysError>(BunkeysError::DuplicateShareIndex),
        reconstruct_result(pts) is Ok ==> reconstruct_result(pts) == Ok::<u128, BunkeysError>(c[0]),
{
    let p = MODULUS as int;
    let x0 = pts[0].0 as int;
    let x1 = pts[1].0 as int;
    let x2 = pts[2].0 as int;
    assert forall|i: int| 0 <= i < 3 implies is_element(#[trigger] pts[i].1 as int) by {
        assert(pts[i].1 as int == poly_value(c, pts[i].0 as int) % p);
    }
    assert(!exists|i: int|
        0 <= i < 3 && (!is_element(#[trigger] pts[i].0 as int) || !is_element(pts[i].1 as int)));
    assert(!exists|i: int, j: int|
        0 <= i < 3 && 0 <= j < 3 && i != j && #[trigger] pts[i].0 == #[trigger] pts[j].0);
    if reconstruct_result(pts) is Ok {
        assert(forall|i: int| 0 <= i < 3 ==> invertible(#[trigger] den_product(pts, i, 3) % p));
        reveal_with_fuel(num_product, 4);
        reveal_with_fuel(den_product, 4);
        reveal_with_fuel(poly_value, 4);
        reveal_with_fuel(power, 3);
        reveal_with_fuel(lagrange_sum, 4);
        let n0 = num_product(pts, 0, 3);
        let n1 = num_product(pts, 1, 3);
        let n2 = num_product(pts, 2, 3);
        assert(num_product(pts, 0, 1) == 1);
        assert(num_product(pts, 0, 2) == x1);
        assert(n0 == x1 * x2);
        assert(num_product(pts, 1, 2) == x0);
        assert(n1 == x0 * x2);
        assert(num_product(pts, 2, 2) == x0 * x1);
        assert(n2 == x0 * x1);
        let d0 = den_product(pts, 0, 3);
        let d1 = den_product(pts, 1, 3);
        let d2 = den_product(pts, 2, 3);
        assert(den_product(pts, 0, 1) == 1);
        assert(den_product(pts, 0, 2) == den_product(pts, 0, 1) * (pts[1].0 - pts[0].0));
        assert(den_product(pts, 0, 2) == x1 - x0);
        assert(d0 == (x1 - x0) * (x2 - x0));
        assert(den_product(pts, 1, 2) == x0 - x1);
        assert(den_product(pts, 2, 2) == (x0 - x2) * (x1 - x2));
        assert(d1 == (x0 - x1) * (x2 - x1));
        assert(d2 == (x0 - x2) * (x1 - x2));
        let m0 = x2 - x1;
        let m1 = x0 - x2;
        let m2 = x1 - x0;
        let vv = d0 * m0;
        assert(d1 * m1 == vv) by (nonlinear_arith)
            requires d0 == (x1 - x0) * (x2 - x0), d1 == (x0 - x1) * (x2 - x1), m0 == x2 - x1, m1 == x0 - x2, vv == d0 * m0;
        assert(d2 * m2 == vv) by (nonlinear_arith)
            requires d0 == (x1 - x0) * (x2 - x0), d2 == (x0 - x2) * (x1 - x2), m0 == x2 - x1, m2 == x1 - x0, vv == d0 * m0;
        let v0 = field_inverse(d0 % p);
        let v1 = field_inverse(d1 % p);
        let v2 = field_inverse(d2 % p);
        assert(invertible(d0 % p));
        assert(invertible(d1 % p));
        assert(invertible(d2 % p));
        assert(is_inverse(d0 % p, v0, p));
        assert(is_inverse(d1 % p, v1, p));
        assert(is_inverse(d2 % p, v2, p));
        let c0 = c[0] as int;
        let c1 = c[1] as int;
        let c2 = c[2] as int;
        let f0 = c0 + c1 * x0 + c2 * (x0 * x0);
        let f1 = c0 + c1 * x1 + c2 * (x1 * x1);
        let f2 = c0 + c1 * x2 + c2 * (x2 * x2);
        assert(poly_value(c, x0) == f0);
        assert(poly_value(c, x1) == f1);
        assert(poly_value(c, x2) == f2);
        let y0 = pts[0].1 as int;
        let y1 = pts[1].1 as int;
        let y2 = pts[2].1 as int;
        lemma_cong_reduce(f0);
        lemma_cong_reduce(f1);
        lemma_cong_reduce(f2);
        let t0 = lagrange_term(pts, 0);
        let t1 = lagrange_term(pts, 1);
        let t2 = lagrange_term(pts, 2);
        lemma_term_times_v(y0, f0, n0, d0, m0, v0, t0);
        lemma_term_times_v(y1, f1, n1, d1, m1, v1, t1);
        lemma_term_times_v(y2, f2, n2, d2, m2, v2, t2);
        let s = lagrange_sum(pts, 3);
        // s ≡ t0 + t1 + t2
        lemma_cong_reduce(0 + t0);
        lemma_cong_reduce(lagrange_sum(pts, 1) + t1);
        lemma_cong_reduce(lagrange_sum(pts, 2) + t2);
        lemma_cong_add(lagrange_sum(pts, 1), t1, t0, t1);
        lemma_cong_add(lagrange_sum(pts, 2), t2, t0 + t1, t2);
        // s * vv ≡ c0 * vv
        lemma_cong_mul(s, vv, t0 + t1 + t2, vv);
        assert((t0 + t1 + t2) * vv == t0 * (d0 * m0) + t1 * (d1 * m1) + t2 * (d2 * m2)) by (nonlinear_arith)
            requires vv == d0 * m0, vv == d1 * m1, vv == d2 * m2;
        lemma_cong_add(t0 * (d0 * m0), t1 * (d1 * m1), f0 * n0 * m0, f1 * n1 * m1);
        lemma_cong_add(t0 * (d0 * m0) + t1 * (d1 * m1), t2 * (d2 * m2), f0 * n0 * m0 + f1 * n1 * m1, f2 * n2 * m2);
        lemma_cleared_identities(x0, x1, x2);
        let k0 = n0 * m0;
        let k1 = n1 * m1;
        let k2 = n2 * m2;
        assert(f0 * n0 * m0 == f0 * k0 && f1 * n1 * m1 == f1 * k1 && f2 * n2 * m2 == f2 * k2)
            by (nonlinear_arith)
            requires
                k0 == n0 * m0,
                k1 == n1 * m1,
                k2 == n2 * m2,
        ;
        lemma_spread(c0, c1, c2, x0, k0);
        lemma_spread(c0, c1, c2, x1, k1);
        lemma_spread(c0, c1, c2, x2, k2);
        assert(k0 + k1 + k2 == vv);
        assert(x0 * k0 + x1 * k1 + x2 * k2 == 0);
        assert((x0 * x0) * k0 + (x1 * x1) * k1 + (x2 * x2) * k2 == 0);
        assert(c0 * k0 + c0 * k1 + c0 * k2 == c0 * (k0 + k1 + k2)) by (nonlinear_arith);
        assert(c1 * (x0 * k0) + c1 * (x1 * k1) + c1 * (x2 * k2) == c1 * (x0 * k0 + x1 * k1 + x2 * k2))
            by (nonlinear_arith);
        assert(c2 * ((x0 * x0) * k0) + c2 * ((x1 * x1) * k1) + c2 * ((x2 * x2) * k2) == c2 * ((x0
            * x0) * k0 + (x1 * x1) * k1 + (x2 * x2) * k2)) by (nonlinear_arith);
        assert(f0 * n0 * m0 + f1 * n1 * m1 + f2 * n2 * m2 == c0 * vv);
        // vv has an inverse: w = v0 * (x0 - x1) * v1
        let w = v0 * (x0 - x1) * v1;
        assert(vv * w == (d0 * v0) * (d1 * v1)) by (nonlinear_arith)
            requires vv == d0 * m0, d1 == (x0 - x1) * (x2 - x1), m0 == x2 - x1, w == v0 * (x0 - x1) * v1;
        lemma_cong_reduce(d0);
        lemma_cong_reduce(d1);
        lemma_cong_mul(d0 % p, v0, d0, v0);
        lemma_cong_mul(d1 % p, v1, d1, v1);
        lemma_small_mod(1, p as nat);
        lemma_cong_mul(d0 * v0, d1 * v1, 1, 1);
        // s ≡ s * vv * w ≡ c0 * vv * w ≡ c0
        lemma_cong_mul(s * vv, w, c0 * vv, w);
        lemma_cong_mul(s, vv * w, s, 1);
        lemma_cong_mul(c0, vv * w, c0, 1);
        assert(s * vv * w == s * (vv * w)) by (nonlinear_arith);
        assert(c0 * vv * w == c0 * (vv * w)) by (nonlinear_arith);
        lemma_small_mod(c0 as nat, p as nat);
        assert(0 <= s < p);
        lemma_small_mod(s as nat, p as nat);
        assert(s == c0);
    }
}

/// Every nonzero integer between -5 and 5 has an inverse modulo the prime.
proof fn lemma_small_invertible(d: int)
    requires
        1 <= d <= 5 || -5 <= d <= -1,
    ensures
        invertible(d % (MODULUS as int)),
{
    let p = MODULUS as int;
    let a = if d > 0 { d } else { -d };
    let v: int = if a == 1 {
        1
    } else if a == 2 {
        0x40000000000000000000000000000000
    } else if a == 3 {
        0x55555555555555555555555555555555
    } else if a == 4 {
        0x20000000000000000000000000000000
    } else {
        0x33333333333333333333333333333333
    };
    assert((a * v) % p == 1);
    if d > 0 {
        assert(d % p == d);
        assert(is_inverse(d % p, v, p));
    } else {
        assert(d % p == p - a);
        assert((p - a) * (p - v) == p * (p - a - v) + a * v) by (nonlinear_arith);
        lemma_mod_multiples_vanish(p - a - v, a * v, p);
        assert(((p - a) * (p - v)) % p == 1);
        assert(is_inverse(d % p, p - v, p));
    }
}

/// A product of two invertible factors is invertible.
proof fn lemma_product_invertible(a: int, b: int)
    requires
        invertible(a % (MODULUS as int)),
        invertible(b % (MODULUS as int)),
    ensures
        invertible((a * b) % (MODULUS as int)),
{
    let p = MODULUS as int;
    let va = field_inverse(a % p);
    let vb = field_inverse(b % p);
    let w = (va * vb) % p;
    lemma_cong_reduce(a);
    lemma_cong_reduce(b);
    lemma_cong_reduce(a * b);
    lemma_cong_reduce(va * vb);
    lemma_cong_mul(a % p, va, a, va);
    lemma_cong_mul(b % p, vb, b, vb);
    lemma_small_mod(1, p as nat);
    lemma_cong_mul(a * va, b * vb, 1, 1);
    assert((a * va) * (b * vb) == (a * b) * (va * vb)) by (nonlinear_arith);
    lemma_cong_mul((a * b) % p, w, a * b, va * vb);
    assert(is_inverse((a * b) % p, w, p));
}

/// Any three of the shares `x = 1, ..., n` (for `n` up to six) of a polynomial
/// of degree at most two reconstruct its constant term.
pub proof fn lemma_three_of_shares_recover_secret(c: Seq<u128>, n: nat, i: int, j: int, k: int)
    requires
        c.len() == 3,
        all_elements(c),
        n <= 6,
        0 <= i < j < k < n,
    ensures
        reconstruct_result(seq![shares_of(c, n)[i], shares_of(c, n)[j], shares_of(c, n)[k]])
            == Ok::<u128, BunkeysError>(c[0]),
{
    let p = MODULUS as int;
    let s = shares_of(c, n);
    let pts = seq![s[i], s[j], s[k]];
    assert(pts[0] == s[i] && pts[1] == s[j] && pts[2] == s[k]);
    assert forall|t: int| 0 <= t < 3 implies is_element(#[trigger] pts[t].0 as int) && 1 <= pts[t].0 <= 6 by {
        assert(pts[t] == s[i] || pts[t] == s[j] || pts[t] == s[k]);
    }
    assert forall|t: int| 0 <= t < 3 implies #[trigger] pts[t].1 as int == poly_value(c, pts[t].0 as int) % p by {
        assert(pts[t] == s[i] || pts[t] == s[j] || pts[t] == s[k]);
        let m = if t == 0 { i } else if t == 1 { j } else { k };
        assert(pts[t] == s[m]);
        assert(pts[t].0 as int == m + 1);
        assert(0 <= poly_value(c, m + 1) % p < p);
    }
    lemma_three_shares_reconstruct(c, pts);
    let x0 = pts[0].0 as int;
    let x1 = pts[1].0 as int;
    let x2 = pts[2].0 as int;
    assert(x0 == i + 1 && x1 == j + 1 && x2 == k + 1);
    reveal_with_fuel(den_product, 4);
    assert(den_product(pts, 0, 1) == 1);
    assert(den_product(pts, 0, 2) == den_product(pts, 0, 1) * (pts[1].0 - pts[0].0));
    assert(den_product(pts, 0, 2) == x1 - x0);
    assert(den_product(pts, 0, 3) == (x1 - x0) * (x2 - x0));
    assert(den_product(pts, 1, 2) == x0 - x1);
    assert(den_product(pts, 1, 3) == (x0 - x1) * (x2 - x1));
    assert(den_product(pts, 2, 3) == (x0 - x2) * (x1 - x2));
    lemma_small_invertible(x1 - x0);
    lemma_small_invertible(x2 - x0);
    lemma_small_invertible(x0 - x1);
    lemma_small_invertible(x2 - x1);
    lemma_small_invertible(x0 - x2);
    lemma_small_invertible(x1 - x2);
    lemma_product_invertible(x1 - x0, x2 - x0);
    lemma_product_invertible(x0 - x1, x2 - x1);
    lemma_product_invertible(x0 - x2, x1 - x2);
    assert(forall|t: int| 0 <= t < 3 ==> invertible(#[trigger] den_product(pts, t, 3) % p));
    assert(reconstruct_result(pts) is Ok);
}

} // verus!
