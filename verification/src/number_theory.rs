//! The arithmetic kernel: modular exponentiation by squaring, the Euclidean
//! algorithm, least common multiple, the extended Euclidean algorithm over
//! signed integers, modular inversion, the fixed-witness probabilistic
//! primality test, and randomized prime generation. Every function is
//! verified against a direct mathematical statement of its result.

use vstd::prelude::*;
use vstd::calc;
use vstd::arithmetic::power::{pow, lemma_pow_adds, lemma_pow_mod_noop, lemma_pow1, lemma_pow0};
use vstd::arithmetic::power2::{pow2, lemma_pow2, lemma_pow2_adds, lemma_pow2_pos, lemma_pow2_unfold};
use vstd::arithmetic::div_mod::{
    lemma_fundamental_div_mod, lemma_mod_division_less_than_divisor, lemma_mul_mod_noop_general,
    lemma_mul_mod_noop_right, lemma_small_mod, lemma_mod_multiples_vanish,
};
use vstd::arithmetic::mul::{lemma_mul_is_distributive_add, lemma_mul_is_distributive_sub,
    lemma_mul_is_associative, lemma_mul_is_commutative};
use num_bigint::{BigInt, BigUint};
use rand_chacha::ChaCha20Rng;
use crate::util::rng_gen_biguint;
use crate::bignum::{
    big_add, big_clone, big_div, big_eq, big_from_u64, big_lt, big_mul, big_rem, big_shl, big_sub,
    big_bits, biguint_nat, bigint_int, int_abs, int_clone, int_div, int_eq, int_from_u64, int_lt,
    int_mul, int_rem, int_sub, int_add, tdiv, tmod,
};

verus! {

/// How many random candidates a generation loop may try before it reports
/// exhaustion instead of searching forever.
pub const RETRY_LIMIT: u32 = 100000;

/// `base^exponent mod modulus`, with the defined fallback of zero when the
/// modulus is zero.
pub open spec fn mod_pow_spec(b: nat, e: nat, m: nat) -> nat {
    if m == 0 {
        0
    } else {
        (pow(b as int, e) % (m as int)) as nat
    }
}

/// The greatest common divisor, by the Euclidean recursion.
pub open spec fn gcd_nat(a: nat, b: nat) -> nat
    decreases b,
{
    if b == 0 {
        a
    } else {
        gcd_nat(b, a % b)
    }
}

/// The least common multiple, zero when either argument is zero.
pub open spec fn lcm_nat(a: nat, b: nat) -> nat {
    if a == 0 || b == 0 {
        0
    } else {
        (a * b) / gcd_nat(a, b)
    }
}

/// `d` divides `n`.
pub open spec fn divides(d: nat, n: nat) -> bool {
    exists|k: nat| n == #[trigger] (d * k)
}

proof fn lemma_tmod_is_scaled_mod(a: int, b: int)
    requires
        b != 0,
    ensures
        0 <= int_abs(tmod(a, b)) < int_abs(b),
        a >= 0 && b > 0 ==> tmod(a, b) == a % b,
{
    let aa = int_abs(a);
    let ab = int_abs(b);
    lemma_fundamental_div_mod(aa, ab);
    lemma_mod_division_less_than_divisor(aa, ab);
    let q = aa / ab;
    let r = aa % ab;
    if a >= 0 && b > 0 {
        assert(tmod(a, b) == a - b * (a / b));
        lemma_fundamental_div_mod(a, b);
    } else if a >= 0 && b < 0 {
        assert(tdiv(a, b) == -q);
        assert(b * -q == -(b * q)) by (nonlinear_arith);
        assert(b * q == -(ab * q)) by (nonlinear_arith)
            requires b == -ab;
        assert(tmod(a, b) == aa - ab * q == r);
    } else if a < 0 && b > 0 {
        assert(tdiv(a, b) == -q);
        assert(b * -q == -(b * q)) by (nonlinear_arith);
        assert(tmod(a, b) == a + b * q == -(aa - ab * q) == -r);
    } else {
        assert(tdiv(a, b) == q);
        assert(b * q == -(ab * q)) by (nonlinear_arith)
            requires b == -ab;
        assert(tmod(a, b) == a + ab * q == -(aa - ab * q) == -r);
    }
}

/// The first component of the extended Euclidean recursion, defined exactly
/// as the computation performs it, over signed integers with truncated
/// remainders.
pub open spec fn egcd_g(a: int, b: int) -> int
    decreases int_abs(b) via egcd_g_dec
{
    if b == 0 {
        a
    } else {
        egcd_g(b, tmod(a, b))
    }
}

#[via_fn]
proof fn egcd_g_dec(a: int, b: int) {
    if b != 0 {
        lemma_tmod_is_scaled_mod(a, b);
    }
}

/// On non-negative inputs the extended Euclidean recursion computes the
/// greatest common divisor.
pub proof fn lemma_egcd_g_nonneg(a: int, b: int)
    requires
        a >= 0,
        b >= 0,
    ensures
        egcd_g(a, b) == gcd_nat(a as nat, b as nat),
    decreases b,
{
    if b != 0 {
        lemma_tmod_is_scaled_mod(a, b);
        lemma_mod_division_less_than_divisor(a, b);
        lemma_egcd_g_nonneg(b, a % b);
    }
}

/// The greatest common divisor divides both of its arguments.
pub proof fn lemma_gcd_divides(a: nat, b: nat)
    ensures
        divides(gcd_nat(a, b), a),
        divides(gcd_nat(a, b), b),
    decreases b,
{
    if b == 0 {
        assert(a == a * 1);
        assert(0nat == a * 0);
    } else {
        lemma_mod_division_less_than_divisor(a as int, b as int);
        lemma_gcd_divides(b, a % b);
        let g = gcd_nat(b, a % b);
        let k1 = choose|k: nat| b == #[trigger] (g * k);
        let k2 = choose|k: nat| a % b == #[trigger] (g * k);
        lemma_fundamental_div_mod(a as int, b as int);
        assert(a == b * (a as int / b as int) + a % b);
        let q = (a as int / b as int) as nat;
        assert(a == (g * k1) * q + g * k2);
        assert((g * k1) * q + g * k2 == g * (k1 * q + k2)) by (nonlinear_arith);
        assert(a == g * (k1 * q + k2));
    }
}

/// The greatest common divisor of two values, at least one positive, is
/// positive.
pub proof fn lemma_gcd_pos(a: nat, b: nat)
    requires
        a > 0 || b > 0,
    ensures
        gcd_nat(a, b) > 0,
{
    lemma_gcd_divides(a, b);
    let g = gcd_nat(a, b);
    if g == 0 {
        if a > 0 {
            let k = choose|k: nat| a == #[trigger] (g * k);
            assert(a == 0 * k == 0) by (nonlinear_arith)
                requires a == g * k && g == 0;
        } else {
            let k = choose|k: nat| b == #[trigger] (g * k);
            assert(b == 0 * k == 0) by (nonlinear_arith)
                requires b == g * k && g == 0;
        }
    }
}

/// Modular exponentiation by repeated squaring. A zero modulus yields the
/// defined fallback of zero rather than a division by zero.
pub fn mod_pow_big(base: &BigUint, exp: &BigUint, modulus: &BigUint) -> (r: BigUint)
    ensures
        biguint_nat(r) == mod_pow_spec(biguint_nat(*base), biguint_nat(*exp), biguint_nat(*modulus)),
        biguint_nat(*modulus) > 0 ==> biguint_nat(r) < biguint_nat(*modulus),
{
    let zero = big_from_u64(0);
    if big_eq(modulus, &zero) {
        return zero;
    }
    let one = big_from_u64(1);
    let two = big_from_u64(2);
    let ghost b0 = biguint_nat(*base) as int;
    let ghost e0 = biguint_nat(*exp);
    let ghost m = biguint_nat(*modulus) as int;
    let mut result = big_rem(&one, modulus);
    let mut b = big_rem(base, modulus);
    let mut e = big_clone(exp);
    proof {
        lemma_pow_mod_noop(b0, e0, m);
        lemma_mul_mod_noop_general(1, pow(b0 % m, e0), m);
        lemma_mul_mod_noop_right(1int % m, pow(b0 % m, e0), m);
    }
    while big_lt(&zero, &e)
        invariant
            m == biguint_nat(*modulus),
            m > 0,
            biguint_nat(result) < m,
            biguint_nat(b) < m,
            biguint_nat(zero) == 0,
            biguint_nat(one) == 1,
            biguint_nat(two) == 2,
            (biguint_nat(result) * pow(biguint_nat(b) as int, biguint_nat(e))) % m
                == (pow(b0, e0) % m),
        decreases biguint_nat(e),
    {
        let ghost rv = biguint_nat(result) as int;
        let ghost bv = biguint_nat(b) as int;
        let ghost ev = biguint_nat(e);
        let parity = big_rem(&e, &two);
        if big_eq(&parity, &one) {
            result = big_rem(&big_mul(&result, &b), modulus);
        }
        b = big_rem(&big_mul(&b, &b), modulus);
        e = big_div(&e, &two);
        proof {
            lemma_mod_division_less_than_divisor(rv * bv, m);
            lemma_mod_division_less_than_divisor(bv * bv, m);
            let e2 = biguint_nat(e);
            lemma_fundamental_div_mod(ev as int, 2);
            // pow(bv, ev) == pow(bv * bv, e2) * (bv if odd else 1)
            assert(pow(bv * bv, e2) == pow(bv, 2 * e2)) by {
                vstd::arithmetic::power::lemma_pow_multiplies(bv, 2, e2);
                assert(pow(bv, 2) == bv * bv) by {
                    lemma_pow1(bv);
                    lemma_pow_adds(bv, 1, 1);
                }
            }
            if ev % 2 == 1 {
                assert(pow(bv, ev) == bv * pow(bv, 2 * e2)) by {
                    lemma_pow1(bv);
                    lemma_pow_adds(bv, 1, 2 * e2);
                }
                calc! {
                    (==)
                    (((rv * bv) % m) * pow(((bv * bv) % m) as int, e2)) % m; {
                        lemma_pow_mod_noop(bv * bv, e2, m);
                        lemma_mul_mod_noop_right((rv * bv) % m, pow(((bv * bv) % m) as int, e2), m);
                        lemma_mul_mod_noop_general((rv * bv) % m, pow(bv * bv, e2), m);
                        lemma_mul_mod_noop_general(rv * bv, pow(bv * bv, e2), m);
                    }
                    ((rv * bv) * pow(bv * bv, e2)) % m; {
                        assert((rv * bv) * pow(bv, 2 * e2) == rv * (bv * pow(bv, 2 * e2)))
                            by (nonlinear_arith);
                    }
                    (rv * pow(bv, ev)) % m;
                }
            } else {
                calc! {
                    (==)
                    (rv * pow(((bv * bv) % m) as int, e2)) % m; {
                        lemma_pow_mod_noop(bv * bv, e2, m);
                        lemma_mul_mod_noop_right(rv, pow(bv * bv, e2), m);
                        lemma_mul_mod_noop_right(rv, pow(((bv * bv) % m) as int, e2), m);
                    }
                    (rv * pow(bv, 2 * e2)) % m; {}
                    (rv * pow(bv, ev)) % m;
                }
            }
        }
    }
    proof {
        lemma_pow0(biguint_nat(b) as int);
        lemma_small_mod(biguint_nat(result), m as nat);
    }
    result
}

/// The greatest common divisor, by the iterated Euclidean algorithm.
pub fn gcd_big(a: &BigUint, b: &BigUint) -> (r: BigUint)
    ensures
        biguint_nat(r) == gcd_nat(biguint_nat(*a), biguint_nat(*b)),
{
    let zero = big_from_u64(0);
    let mut x = big_clone(a);
    let mut y = big_clone(b);
    while big_lt(&zero, &y)
        invariant
            gcd_nat(biguint_nat(x), biguint_nat(y)) == gcd_nat(biguint_nat(*a), biguint_nat(*b)),
        decreases biguint_nat(y),
    {
        proof {
            lemma_mod_division_less_than_divisor(biguint_nat(x) as int, biguint_nat(y) as int);
        }
        let t = big_rem(&x, &y);
        x = y;
        y = t;
    }
    x
}

/// The least common multiple; zero when either argument is zero.
pub fn lcm_big(a: &BigUint, b: &BigUint) -> (r: BigUint)
    ensures
        biguint_nat(r) == lcm_nat(biguint_nat(*a), biguint_nat(*b)),
{
    let zero = big_from_u64(0);
    if big_eq(a, &zero) || big_eq(b, &zero) {
        return zero;
    }
    let g = gcd_big(a, b);
    proof {
        let av = biguint_nat(*a);
        let bv = biguint_nat(*b);
        lemma_gcd_pos(av, bv);
        lemma_gcd_divides(av, bv);
        let gv = gcd_nat(av, bv);
        let k = choose|k: nat| av == #[trigger] (gv * k);
        assert((gv * k) / gv == k) by (nonlinear_arith)
            requires gv > 0;
        assert((gv * k) * bv == gv * (k * bv)) by (nonlinear_arith);
        assert((gv * (k * bv)) / gv == k * bv) by (nonlinear_arith)
            requires gv > 0;
        assert((av / gv) * bv == (av * bv) / gv);
    }
    big_mul(&big_div(a, &g), b)
}

/// The extended Euclidean algorithm over signed integers: returns `(g, x, y)`
/// with `a*x + b*y == g`, where `g` is the chain value `egcd_g(a, b)`; on
/// non-negative inputs `g` is the greatest common divisor.
pub fn egcd_big(a: &BigInt, b: &BigInt) -> (r: (BigInt, BigInt, BigInt))
    ensures
        bigint_int(r.0) == egcd_g(bigint_int(*a), bigint_int(*b)),
        bigint_int(*a) * bigint_int(r.1) + bigint_int(*b) * bigint_int(r.2) == bigint_int(r.0),
        bigint_int(*b) == 0 ==> bigint_int(r.1) == 1 && bigint_int(r.2) == 0,
    decreases int_abs(bigint_int(*b)),
{
    let zero = int_from_u64(0);
    if int_eq(b, &zero) {
        let g = int_clone(a);
        let x = int_from_u64(1);
        let y = int_from_u64(0);
        proof {
            let av = bigint_int(*a);
            assert(av * 1 + 0 * 0 == av) by (nonlinear_arith);
        }
        (g, x, y)
    } else {
        proof {
            lemma_tmod_is_scaled_mod(bigint_int(*a), bigint_int(*b));
        }
        let q = int_div(a, b);
        let rem = int_rem(a, b);
        let (g, x, y) = egcd_big(b, &rem);
        let y_next = int_sub(&x, &int_mul(&q, &y));
        proof {
            let av = bigint_int(*a);
            let bv = bigint_int(*b);
            let qv = tdiv(av, bv);
            let rv = tmod(av, bv);
            let xv = bigint_int(x);
            let yv = bigint_int(y);
            let gv = bigint_int(g);
            assert(bv * xv + rv * yv == gv);
            assert(rv == av - bv * qv);
            assert(av * yv + bv * (xv - qv * yv) == bv * xv + (av - bv * qv) * yv)
                by (nonlinear_arith);
        }
        (g, y, y_next)
    }
}

/// Modular inverse derived from the extended Euclidean algorithm: `None`
/// exactly when the inputs are not coprime (for a non-negative `a`), else the
/// unique representative in `[0, m)` of the inverse class.
pub fn mod_inv_big(a: &BigInt, m: &BigInt) -> (r: Option<BigInt>)
    requires
        bigint_int(*m) > 0,
    ensures
        bigint_int(*a) >= 0 ==> ((r is Some) <==> gcd_nat(bigint_int(*a) as nat,
            bigint_int(*m) as nat) == 1),
        match r {
            Some(inv) => {
                &&& 0 <= bigint_int(inv) < bigint_int(*m)
                &&& (bigint_int(*a) * bigint_int(inv)) % bigint_int(*m) == 1int % bigint_int(*m)
            },
            None => true,
        },
{
    let (g, x, y) = egcd_big(a, m);
    let one = int_from_u64(1);
    if !int_eq(&g, &one) {
        proof {
            if bigint_int(*a) >= 0 {
                lemma_egcd_g_nonneg(bigint_int(*a), bigint_int(*m));
            }
        }
        None
    } else {
        let zero = int_from_u64(0);
        let mut r = int_rem(&x, m);
        let ghost av = bigint_int(*a);
        let ghost mv = bigint_int(*m);
        let ghost xv = bigint_int(x);
        let ghost yv = bigint_int(y);
        proof {
            lemma_tmod_is_scaled_mod(xv, mv);
            if av >= 0 {
                lemma_egcd_g_nonneg(av, mv);
            }
        }
        if int_lt(&r, &zero) {
            r = int_add(&r, m);
        }
        proof {
            let rv = bigint_int(r);
            // r is congruent to x modulo m and lies in [0, m)
            assert(rv % mv == xv % mv) by {
                let q = tdiv(xv, mv);
                assert(tmod(xv, mv) == xv - mv * q);
                assert(xv == mv * q + tmod(xv, mv));
                if tmod(xv, mv) < 0 {
                    lemma_mod_multiples_vanish(q - 1, rv, mv);
                    assert(mv * (q - 1) + rv == xv) by (nonlinear_arith)
                        requires rv == tmod(xv, mv) + mv && xv == mv * q + tmod(xv, mv);
                    lemma_small_mod(rv as nat, mv as nat);
                } else {
                    lemma_mod_multiples_vanish(q, rv, mv);
                    assert(mv * q + rv == xv);
                    lemma_small_mod(rv as nat, mv as nat);
                }
            }
            assert((av * rv) % mv == 1int % mv) by {
                lemma_mul_mod_noop_right(av, rv, mv);
                lemma_mul_mod_noop_right(av, xv, mv);
                assert((av * rv) % mv == (av * xv) % mv);
                assert(av * xv == 1 - mv * yv) by (nonlinear_arith)
                    requires av * xv + mv * yv == 1int;
                lemma_mod_multiples_vanish(-yv, 1, mv);
                assert(mv * -yv + 1 == 1 - mv * yv) by (nonlinear_arith);
            }
        }
        Some(r)
    }
}


/// The odd factor that remains after all powers of two are removed.
pub open spec fn odd_part(n: nat) -> nat
    decreases n,
{
    if n == 0 {
        0
    } else if n % 2 == 1 {
        n
    } else {
        odd_part(n / 2)
    }
}

/// The exponent of the largest power of two dividing `n`.
pub open spec fn two_adic(n: nat) -> nat
    decreases n,
{
    if n == 0 {
        0
    } else if n % 2 == 1 {
        0
    } else {
        1 + two_adic(n / 2)
    }
}

/// A witness base accepts an odd `n > 2` when, with `n - 1 == d * 2^s` and
/// `d` odd, either `a^d mod n` is one, or some square in the chain
/// `a^(d*2^k) mod n` for `k < s` equals `n - 1`.
pub open spec fn mr_witness_passes(n: nat, a: nat) -> bool {
    let d = odd_part((n - 1) as nat);
    let s = two_adic((n - 1) as nat);
    ||| mod_pow_spec(a, d, n) == 1
    ||| exists|k: nat| k < s && #[trigger] mod_pow_spec(a, d * pow2(k), n) == (n - 1) as nat
}

/// The fixed-witness compositeness test: values below two and even values
/// above two are composite, two is prime, and an odd value above two is
/// probably prime exactly when every witness base among two, three and five
/// that is below `n` accepts it.
pub open spec fn spec_probable_prime(n: nat) -> bool {
    if n < 2 {
        false
    } else if n == 2 {
        true
    } else if n % 2 == 0 {
        false
    } else {
        &&& (2 >= n || mr_witness_passes(n, 2))
        &&& (3 >= n || mr_witness_passes(n, 3))
        &&& (5 >= n || mr_witness_passes(n, 5))
    }
}

/// The outcomes that the test fixes outright: two is accepted, and any value
/// below two or even value above two is rejected.
pub proof fn lemma_probable_prime_basics(n: nat)
    ensures
        n < 2 ==> !spec_probable_prime(n),
        spec_probable_prime(2),
        n > 2 && n % 2 == 0 ==> !spec_probable_prime(n),
{
}

/// Splits a positive even value into its odd part and the exponent of two.
fn decompose_even(nm1: &BigUint) -> (r: (BigUint, u64))
    requires
        biguint_nat(*nm1) > 0,
    ensures
        biguint_nat(r.0) == odd_part(biguint_nat(*nm1)),
        r.1 == two_adic(biguint_nat(*nm1)),
{
    let ghost n0 = biguint_nat(*nm1);
    let bits = big_bits(nm1);
    let two = big_from_u64(2);
    let zero = big_from_u64(0);
    let mut d = big_clone(nm1);
    let mut s: u64 = 0;
    proof {
        lemma_pow2_pos(0);
        assert(pow2(0) == 1) by {
            lemma_pow2_unfold(1);
            lemma_pow2_pos(1);
            assert(pow2(1) == 2) by {
                vstd::arithmetic::power2::lemma2_to64();
            }
        }
    }
    loop
        invariant
            biguint_nat(two) == 2,
            biguint_nat(zero) == 0,
            n0 == biguint_nat(*nm1),
            n0 > 0,
            biguint_nat(d) > 0,
            odd_part(biguint_nat(d)) == odd_part(n0),
            two_adic(n0) == s + two_adic(biguint_nat(d)),
            n0 == biguint_nat(d) * pow2(s as nat),
            n0 > 0 ==> bits > 0 && n0 < pow2(bits as nat),
            pow2(s as nat) <= n0,
        ensures
            biguint_nat(d) % 2 == 1,
            odd_part(biguint_nat(d)) == odd_part(n0),
            two_adic(n0) == s + two_adic(biguint_nat(d)),
        decreases biguint_nat(d),
    {
        let parity = big_rem(&d, &two);
        if !big_eq(&parity, &zero) {
            break;
        }
        let ghost dv = biguint_nat(d);
        d = big_div(&d, &two);
        proof {
            assert(s < bits) by {
                if s >= bits {
                    vstd::arithmetic::power::lemma_pow_increases(2, bits as nat, s as nat);
                    lemma_pow2(bits as nat);
                    lemma_pow2(s as nat);
                }
            }
            lemma_fundamental_div_mod(dv as int, 2);
            assert(dv == 2 * biguint_nat(d));
            assert(biguint_nat(d) * pow2((s + 1) as nat) == dv * pow2(s as nat)) by {
                lemma_pow2_adds(s as nat, 1);
                lemma_pow2_unfold(1);
                lemma_pow2_pos(1);
                assert(pow2(1) == 2) by {
                    vstd::arithmetic::power2::lemma2_to64();
                }
                assert(biguint_nat(d) * (pow2(s as nat) * 2) == (2 * biguint_nat(d)) * pow2(
                    s as nat)) by (nonlinear_arith);
            }
            assert(pow2((s + 1) as nat) <= n0) by {
                lemma_pow2_adds(s as nat, 1);
                assert(pow2(1) == 2) by {
                    vstd::arithmetic::power2::lemma2_to64();
                }
                assert(biguint_nat(d) * (pow2(s as nat) * 2) >= 1 * (pow2(s as nat) * 2))
                    by (nonlinear_arith)
                    requires biguint_nat(d) >= 1 && pow2(s as nat) * 2 > 0;
                lemma_pow2_pos(s as nat);
            }
        }
        s = s + 1;
    }
    (d, s)
}

/// Runs one witness base of the compositeness test.
fn mr_witness_exec(n: &BigUint, nm1: &BigUint, d: &BigUint, s: u64, a: u64) -> (r: bool)
    requires
        biguint_nat(*n) > 2,
        biguint_nat(*n) % 2 == 1,
        biguint_nat(*nm1) == biguint_nat(*n) - 1,
        biguint_nat(*d) == odd_part((biguint_nat(*n) - 1) as nat),
        s == two_adic((biguint_nat(*n) - 1) as nat),
    ensures
        r == mr_witness_passes(biguint_nat(*n), a as nat),
{
    let ghost nv = biguint_nat(*n);
    let ghost av = a as nat;
    let ghost dv = biguint_nat(*d);
    let ab = big_from_u64(a);
    let mut x = mod_pow_big(&ab, d, n);
    let one = big_from_u64(1);
    proof {
        lemma_pow2_pos(0);
        assert(pow2(0) == 1) by {
            vstd::arithmetic::power2::lemma2_to64();
        }
        assert(dv * pow2(0) == dv) by (nonlinear_arith)
            requires pow2(0) == 1nat;
    }
    if big_eq(&x, &one) || big_eq(&x, nm1) {
        proof {
            if biguint_nat(x) == nv - 1 {
                assert(two_adic((nv - 1) as nat) > 0);
                assert(mod_pow_spec(av, dv * pow2(0), nv) == (nv - 1) as nat);
            }
        }
        return true;
    }
    let mut k: u64 = 1;
    while k < s
        invariant
            nv == biguint_nat(*n),
            nv > 2,
            biguint_nat(*nm1) == nv - 1,
            1 <= k,
            s == two_adic((nv - 1) as nat),
            dv == odd_part((nv - 1) as nat),
            av == a as nat,
            s > 0 ==> k <= s,
            biguint_nat(x) == mod_pow_spec(av, dv * pow2((k - 1) as nat), nv),
            mod_pow_spec(av, dv, nv) != 1,
            forall|j: nat| j < k ==> #[trigger] mod_pow_spec(av, dv * pow2(j), nv) != (nv - 1) as nat,
        decreases s - k,
    {
        let ghost xv = biguint_nat(x) as int;
        x = big_rem(&big_mul(&x, &x), n);
        proof {
            let e1 = (dv * pow2((k - 1) as nat)) as nat;
            assert((xv * xv) % (nv as int) == (pow(av as int, e1) * pow(av as int, e1)) % (
                nv as int)) by {
                lemma_mul_mod_noop_general(pow(av as int, e1), pow(av as int, e1), nv as int);
            }
            lemma_pow_adds(av as int, e1, e1);
            assert(e1 + e1 == dv * pow2(k as nat)) by {
                lemma_pow2_adds((k - 1) as nat, 1);
                assert(pow2(1) == 2) by {
                    vstd::arithmetic::power2::lemma2_to64();
                }
                assert(dv * (pow2((k - 1) as nat) * 2) == dv * pow2((k - 1) as nat) + dv * pow2(
                    (k - 1) as nat)) by (nonlinear_arith);
            }
        }
        if big_eq(&x, nm1) {
            proof {
                assert(mod_pow_spec(av, dv * pow2(k as nat), nv) == (nv - 1) as nat);
            }
            return true;
        }
        k = k + 1;
    }
    proof {
        assert(forall|j: nat| j < s ==> #[trigger] mod_pow_spec(av, dv * pow2(j), nv) != (nv - 1)
            as nat);
    }
    false
}

/// The fixed-witness probabilistic primality test: rejects values below two
/// and even values above two outright, then tries the witness bases two,
/// three and five, any single failing witness rejecting the value. The
/// verdict is probabilistic for large inputs, not a certificate.
pub fn is_probable_prime(n: &BigUint) -> (r: bool)
    ensures
        r == spec_probable_prime(biguint_nat(*n)),
{
    let two = big_from_u64(2);
    if big_lt(n, &two) {
        return false;
    }
    if big_eq(n, &two) {
        return true;
    }
    let zero = big_from_u64(0);
    let parity = big_rem(n, &two);
    if big_eq(&parity, &zero) {
        return false;
    }
    let one = big_from_u64(1);
    let nm1 = big_sub(n, &one);
    let (d, s) = decompose_even(&nm1);
    if !mr_witness_exec(n, &nm1, &d, s, 2) {
        return false;
    }
    let three = big_from_u64(3);
    if big_lt(&three, n) {
        if !mr_witness_exec(n, &nm1, &d, s, 3) {
            return false;
        }
    }
    let five = big_from_u64(5);
    if big_lt(&five, n) {
        if !mr_witness_exec(n, &nm1, &d, s, 5) {
            return false;
        }
    }
    true
}

/// Euler's totient of a product of two primes: `(p - 1) * (q - 1)`.
pub fn phi_of_pq(p: &BigUint, q: &BigUint) -> (r: BigUint)
    requires
        biguint_nat(*p) >= 1,
        biguint_nat(*q) >= 1,
    ensures
        biguint_nat(r) == (biguint_nat(*p) - 1) * (biguint_nat(*q) - 1),
{
    let one = big_from_u64(1);
    big_mul(&big_sub(p, &one), &big_sub(q, &one))
}

/// The Carmichael function of a product of two primes:
/// `lcm(p - 1, q - 1)`.
pub fn lambda_of_pq(p: &BigUint, q: &BigUint) -> (r: BigUint)
    requires
        biguint_nat(*p) >= 1,
        biguint_nat(*q) >= 1,
    ensures
        biguint_nat(r) == lcm_nat((biguint_nat(*p) - 1) as nat, (biguint_nat(*q) - 1) as nat),
{
    let one = big_from_u64(1);
    lcm_big(&big_sub(p, &one), &big_sub(q, &one))
}



/// Draws random odd candidates of exactly `bits` bits (top and bottom bit
/// set) and returns the first that passes the probabilistic primality test,
/// or `None` once the retry budget is exhausted, so that the search never
/// runs unboundedly.
pub fn gen_prime_bits(bits: u32, rng: &mut ChaCha20Rng) -> (r: Option<BigUint>)
    requires
        bits >= 2,
    ensures
        match r {
            Some(p) => {
                &&& spec_probable_prime(biguint_nat(p))
                &&& pow2((bits - 1) as nat) <= biguint_nat(p) < pow2(bits as nat)
                &&& biguint_nat(p) % 2 == 1
            },
            None => true,
        },
{
    let one = big_from_u64(1);
    let top = big_shl(&one, (bits - 1) as u64);
    proof {
        vstd::arithmetic::power2::lemma2_to64();
    }
    let mut tries: u32 = 0;
    while tries < RETRY_LIMIT
        invariant
            bits >= 2,
            biguint_nat(one) == 1,
            biguint_nat(top) == pow2((bits - 1) as nat),
        decreases RETRY_LIMIT - tries,
    {
        let k = rng_gen_biguint(rng, (bits - 2) as u64);
        let cand = big_add(&big_add(&top, &big_shl(&k, 1)), &one);
        proof {
            let kv = biguint_nat(k);
            assert(pow2(1) == 2) by {
                vstd::arithmetic::power2::lemma2_to64();
            }
            assert(pow2((bits - 1) as nat) == 2 * pow2((bits - 2) as nat)) by {
                lemma_pow2_adds((bits - 2) as nat, 1);
            }
            assert(pow2(bits as nat) == 2 * pow2((bits - 1) as nat)) by {
                lemma_pow2_adds((bits - 1) as nat, 1);
            }
            assert(kv * pow2(1) == 2 * kv) by (nonlinear_arith)
                requires pow2(1) == 2nat;
            assert(2 * kv + 2 <= 2 * pow2((bits - 2) as nat)) by (nonlinear_arith)
                requires kv < pow2((bits - 2) as nat);
            assert(biguint_nat(cand) % 2 == 1) by {
                let half = pow2((bits - 2) as nat) + kv;
                assert(biguint_nat(cand) == half * 2 + 1) by (nonlinear_arith)
                    requires biguint_nat(cand) == 2 * pow2((bits - 2) as nat) + 2 * kv + 1
                        && half == pow2((bits - 2) as nat) + kv;
                vstd::arithmetic::div_mod::lemma_fundamental_div_mod_converse(
                    biguint_nat(cand) as int, 2, half as int, 1);
            }
        }
        if is_probable_prime(&cand) {
            return Some(cand);
        }
        tries = tries + 1;
    }
    None
}



/// A modular power lies below a positive modulus, and a zeroth power is one
/// for any modulus above one.
pub proof fn lemma_mod_pow_bounds(a: nat, e: nat, m: nat)
    ensures
        m > 0 ==> mod_pow_spec(a, e, m) < m,
        m > 1 ==> mod_pow_spec(a, 0, m) == 1,
{
    if m > 0 {
        lemma_mod_division_less_than_divisor(pow(a as int, e), m as int);
    }
    if m > 1 {
        lemma_pow0(a as int);
        lemma_small_mod(1, m);
    }
}


} // verus!
