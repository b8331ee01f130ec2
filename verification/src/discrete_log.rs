//! Discrete-logarithm solvers: the baby-step/giant-step meet-in-the-middle
//! search and a brute-force linear scan, both answering `base^x = target
//! (mod modulus)`, normalizing their inputs, emitting diagnostic warnings,
//! and recording every probe as one step of an ordered trace. A reported
//! solution is proved to satisfy the congruence; a reported truncation flag
//! is proved to mean exactly that the step budget cut the search short.

use vstd::prelude::*;
use vstd::calc;
use num_bigint::BigUint;
use vstd::arithmetic::power::{pow, lemma_pow0, lemma_pow1, lemma_pow_adds, lemma_pow_mod_noop,
    lemma_pow_multiplies};
use vstd::arithmetic::div_mod::{lemma_mod_division_less_than_divisor, lemma_mul_mod_noop_general,
    lemma_mul_mod_noop_left, lemma_mul_mod_noop_right, lemma_small_mod};
use vstd::string::{StrSliceExecFns, StringExecFns};
use crate::bignum::{
    big_add, big_clone, big_eq, big_from_u64, big_lt, big_mul, big_rem, big_sqrt, big_sub,
    big_to_u32, biguint_nat, dec_of, int_from_big, int_to_big,
};
use crate::number_theory::{gcd_big, gcd_nat, is_probable_prime, mod_inv_big, mod_pow_big,
    mod_pow_spec, spec_probable_prime};
use crate::util::{biguint_to_string, u32_to_string, u64_to_string};

verus! {

/// One recorded probe of a discrete-logarithm search.
pub struct DiscreteLogStep {
    pub step: u32,
    pub method: String,
    pub description: String,
    pub current_value: String,
    pub exponent: String,
    pub found: bool,
}

/// The full search record: normalized inputs, the solution if one was found,
/// the ordered probe trace, the method tag, diagnostic warnings, and whether
/// the step budget cut the search short.
pub struct DiscreteLogVisualization {
    pub base: String,
    pub target: String,
    pub modulus: String,
    pub solution: Option<String>,
    pub steps: Vec<DiscreteLogStep>,
    pub method_used: String,
    pub warnings: Vec<String>,
    pub truncated: bool,
}

/// The step indices of a trace never decrease: the order of the records is
/// the order of the search.
pub open spec fn steps_ordered(steps: Seq<DiscreteLogStep>) -> bool {
    forall|k1: int, k2: int| 0 <= k1 <= k2 < steps.len() ==> (#[trigger] steps[k1].step)
        <= (#[trigger] steps[k2].step)
}

/// The step indices of a trace strictly increase: each record's index is
/// larger than every earlier one.
pub open spec fn steps_strictly_ordered(steps: Seq<DiscreteLogStep>) -> bool {
    forall|k1: int, k2: int| 0 <= k1 < k2 < steps.len() ==> (#[trigger] steps[k1].step)
        < (#[trigger] steps[k2].step)
}

/// The value both solvers probe at index `i`: both start their running
/// product at one before any reduction, so the probe at index zero is one
/// even when the modulus is one.
pub open spec fn probe_val(b: nat, i: nat, m: nat) -> nat {
    if i == 0 {
        1
    } else {
        mod_pow_spec(b, i, m)
    }
}

/// A hit at probe index `i` solves the congruence.
proof fn lemma_probe_hit(b: nat, i: nat, m: nat, t: nat)
    requires
        m > 0,
        t < m,
        probe_val(b, i, m) == t,
    ensures
        mod_pow_spec(b, i, m) == t,
{
    if i == 0 {
        lemma_pow0(b as int);
        lemma_small_mod(1, m);
    }
}

/// The integer square root, by unit steps.
pub open spec fn spec_isqrt(n: nat) -> nat
    decreases n,
{
    if n == 0 {
        0
    } else {
        let r = spec_isqrt((n - 1) as nat);
        if (r + 1) * (r + 1) <= n {
            r + 1
        } else {
            r
        }
    }
}

/// The integer square root brackets its argument between consecutive
/// squares.
pub proof fn lemma_isqrt_bounds(n: nat)
    ensures
        spec_isqrt(n) * spec_isqrt(n) <= n,
        n < (spec_isqrt(n) + 1) * (spec_isqrt(n) + 1),
    decreases n,
{
    if n == 0 {
        assert(spec_isqrt(0) == 0);
        assert(0nat * 0nat == 0) by (nonlinear_arith);
        assert((0nat + 1) * (0nat + 1) == 1) by (nonlinear_arith);
    } else {
        lemma_isqrt_bounds((n - 1) as nat);
        let r = spec_isqrt((n - 1) as nat);
        if (r + 1) * (r + 1) <= n {
            assert(n <= (r + 1) * (r + 1));
            assert((r + 1) * (r + 1) < ((r + 1) + 1) * ((r + 1) + 1)) by (nonlinear_arith);
            assert(spec_isqrt(n) == r + 1);
            assert(spec_isqrt(n) * spec_isqrt(n) <= n);
            assert(n < (spec_isqrt(n) + 1) * (spec_isqrt(n) + 1));
        } else {
            assert(spec_isqrt(n) == r);
            assert(spec_isqrt(n) * spec_isqrt(n) <= n);
            assert(n < (spec_isqrt(n) + 1) * (spec_isqrt(n) + 1));
        }
    }
}

/// Any value bracketed between consecutive squares is the integer square
/// root.
proof fn lemma_isqrt_unique(n: nat, r: nat)
    requires
        r * r <= n,
        n < (r + 1) * (r + 1),
    ensures
        r == spec_isqrt(n),
{
    lemma_isqrt_bounds(n);
    let s = spec_isqrt(n);
    assert(r == s) by (nonlinear_arith)
        requires
            r * r <= n,
            n < (r + 1) * (r + 1),
            s * s <= n,
            n < (s + 1) * (s + 1);
}

/// Builds the probe description `Trying exponent i: b^i = cur (mod m)`.
fn brute_description(i: u32, base_str: &str, cur: &BigUint, modulus_str: &str) -> (r: String)
    ensures
        r@ == "Trying exponent "@ + dec_of(i as nat) + ": "@ + base_str@ + "^"@ + dec_of(
            i as nat) + " \u{2261} "@ + dec_of(biguint_nat(*cur)) + " (mod "@ + modulus_str@
            + ")"@,
{
    let mut s = String::from_str("Trying exponent ");
    s.append(u32_to_string(i).as_str());
    s.append(": ");
    s.append(base_str);
    s.append("^");
    s.append(u32_to_string(i).as_str());
    s.append(" \u{2261} ");
    s.append(biguint_to_string(cur).as_str());
    s.append(" (mod ");
    s.append(modulus_str);
    s.append(")");
    s
}

/// Builds the found-solution description `Found solution: t = x`.
fn found_description(target_str: &str, sol: &str) -> (r: String)
    ensures
        r@ == "Found solution: "@ + target_str@ + " = "@ + sol@,
{
    let mut s = String::from_str("Found solution: ");
    s.append(target_str);
    s.append(" = ");
    s.append(sol);
    s
}

/// The diagnostic warnings both solvers emit, in order: normalization
/// notices for base and target, a coprimality notice, and the solver's own
/// non-primality notice.
pub open spec fn dl_warnings(b: nat, t: nat, m: nat, prime_note: Seq<char>) -> Seq<Seq<char>> {
    let w1: Seq<Seq<char>> = if b % m != b {
        seq!["Base reduced modulo modulus"@]
    } else {
        Seq::empty()
    };
    let w2: Seq<Seq<char>> = if t % m != t {
        seq!["Target reduced modulo modulus"@]
    } else {
        Seq::empty()
    };
    let w3: Seq<Seq<char>> = if gcd_nat(b % m, m) != 1 {
        seq!["gcd(base, modulus) != 1; discrete log may not exist or be non-unique"@]
    } else {
        Seq::empty()
    };
    let w4: Seq<Seq<char>> = if !spec_probable_prime(m) {
        seq![prime_note]
    } else {
        Seq::empty()
    };
    w1 + w2 + w3 + w4
}

/// Pushes the diagnostic warnings shared by both solvers: normalization
/// notices, a coprimality notice, and a non-primality notice.
fn push_common_warnings(warnings: &mut Vec<String>, base: &BigUint, target: &BigUint,
    modulus: &BigUint, b_norm: &BigUint, t_norm: &BigUint, prime_note: &str)
    requires
        biguint_nat(*modulus) > 0,
        biguint_nat(*b_norm) == biguint_nat(*base) % biguint_nat(*modulus),
        biguint_nat(*t_norm) == biguint_nat(*target) % biguint_nat(*modulus),
    ensures
        final(warnings)@.map_values(|w: String| w@) == old(warnings)@.map_values((|w: String|
            w@)) + dl_warnings(biguint_nat(*base), biguint_nat(*target), biguint_nat(*modulus),
            prime_note@),
{
    let ghost f = |w: String| w@;
    let ghost m0 = old(warnings)@.map_values(f);
    if !big_eq(b_norm, base) {
        warnings.push(String::from_str("Base reduced modulo modulus"));
    }
    if !big_eq(t_norm, target) {
        warnings.push(String::from_str("Target reduced modulo modulus"));
    }
    let one = big_from_u64(1);
    let g = gcd_big(b_norm, modulus);
    if !big_eq(&g, &one) {
        warnings.push(String::from_str(
            "gcd(base, modulus) != 1; discrete log may not exist or be non-unique"));
    }
    if !is_probable_prime(modulus) {
        warnings.push(String::from_str(prime_note));
    }
    proof {
        assert(warnings@.map_values(f) =~~= m0 + dl_warnings(biguint_nat(*base),
            biguint_nat(*target), biguint_nat(*modulus), prime_note@));
        assert(warnings@.map_values(|w: String| w@) =~~= warnings@.map_values(f));
    }
}

/// The rendered description of one brute-force probe.
pub open spec fn brute_probe_desc(bn: nat, m: nat, k: nat) -> Seq<char> {
    "Trying exponent "@ + dec_of(k) + ": "@ + dec_of(bn) + "^"@ + dec_of(k) + " \u{2261} "@
        + dec_of(probe_val(bn, k, m)) + " (mod "@ + dec_of(m) + ")"@
}

/// What the brute-force probe record at index `k` holds: the index, the
/// probed value, its rendering, and the not-yet-found flag.
pub open spec fn brute_step_ok(st: DiscreteLogStep, bn: nat, m: nat, k: int) -> bool {
    &&& st.step == k
    &&& st.method@ == "Brute Force"@
    &&& st.description@ == brute_probe_desc(bn, m, k as nat)
    &&& st.current_value@ == dec_of(probe_val(bn, k as nat, m))
    &&& st.exponent@ == dec_of(k as nat)
    &&& !st.found
}

/// Brute-force discrete logarithm: probes `base^i mod modulus` for `i` from
/// zero upward, stopping at the first match or at the step budget. A
/// reported solution is the least probe index that matches; a `None` comes
/// with the truncation flag set and means no probe within the budget
/// matched.
pub fn brute_force_discrete_log(base: &BigUint, target: &BigUint, modulus: &BigUint,
    max_steps: u32) -> (r: DiscreteLogVisualization)
    requires
        biguint_nat(*modulus) > 0,
    ensures
        ({
            let m = biguint_nat(*modulus);
            let bn = biguint_nat(*base) % m;
            let tn = biguint_nat(*target) % m;
            &&& r.base@ == dec_of(bn)
            &&& r.target@ == dec_of(tn)
            &&& r.modulus@ == dec_of(m)
            &&& r.truncated == (r.solution is None)
            &&& match r.solution {
                Some(s) => exists|x: nat| {
                    &&& #[trigger] mod_pow_spec(bn, x, m) == tn
                    &&& x < max_steps
                    &&& s@ == dec_of(x)
                    &&& forall|j: nat| j < x ==> #[trigger] probe_val(bn, j, m) != tn
                    &&& r.steps@.len() == x + 2
                    &&& (forall|k2: int| 0 <= k2 <= x ==> brute_step_ok(#[trigger] r.steps@[k2],
                        bn, m, k2))
                    &&& r.steps@[x as int + 1].step == x
                    &&& r.steps@[x as int + 1].method@ == "Solution Found"@
                    &&& r.steps@[x as int + 1].found
                    &&& r.steps@[x as int + 1].current_value@ == dec_of(tn)
                    &&& r.steps@[x as int + 1].exponent@ == dec_of(x)
                    &&& r.steps@[x as int + 1].description@ == "Found solution: "@ + dec_of(tn)
                        + " = "@ + dec_of(x)
                },
                None => {
                    &&& (forall|x: nat| x < max_steps ==> #[trigger] probe_val(bn, x, m) != tn)
                    &&& r.steps@.len() == max_steps
                    &&& (forall|k2: int| 0 <= k2 < max_steps ==> brute_step_ok(
                        #[trigger] r.steps@[k2], bn, m, k2))
                },
            }
            &&& (r.solution is Some ==> r.method_used@ == "Brute Force"@)
            &&& (r.solution is None ==> r.method_used@
                == "Brute Force (stopped at max_steps; increase to continue)"@)
            &&& r.warnings@.map_values(|w: String| w@) == dl_warnings(biguint_nat(*base),
                biguint_nat(*target), m,
                "Modulus is not prime; brute force may not find a solution if target is outside <base>."@)
            &&& steps_ordered(r.steps@)
        }),
{
    let ghost m = biguint_nat(*modulus);
    let b_norm = big_rem(base, modulus);
    let t_norm = big_rem(target, modulus);
    let ghost bn = biguint_nat(b_norm);
    let ghost tn = biguint_nat(t_norm);
    let mut steps: Vec<DiscreteLogStep> = Vec::new();
    let mut warnings: Vec<String> = Vec::new();
    push_common_warnings(&mut warnings, base, target, modulus, &b_norm, &t_norm,
        "Modulus is not prime; brute force may not find a solution if target is outside <base>.");

    let base_str = biguint_to_string(&b_norm);
    let target_str = biguint_to_string(&t_norm);
    let modulus_str = biguint_to_string(modulus);

    let one = big_from_u64(1);
    let mut current = big_clone(&one);
    proof {
        lemma_mod_division_less_than_divisor(biguint_nat(*base) as int, m as int);
        lemma_mod_division_less_than_divisor(biguint_nat(*target) as int, m as int);
    }
    let mut i: u32 = 0;
    while i < max_steps
        invariant
            m == biguint_nat(*modulus),
            m > 0,
            bn == biguint_nat(b_norm) && bn < m,
            tn == biguint_nat(t_norm) && tn < m,
            bn == biguint_nat(*base) % m,
            tn == biguint_nat(*target) % m,
            base_str@ == dec_of(bn),
            target_str@ == dec_of(tn),
            modulus_str@ == dec_of(m),
            warnings@.map_values(|w: String| w@) == dl_warnings(biguint_nat(*base),
                biguint_nat(*target), m,
                "Modulus is not prime; brute force may not find a solution if target is outside <base>."@),
            i <= max_steps,
            steps_ordered(steps@),
            steps@.len() == i,
            forall|k: int| 0 <= k < steps@.len() ==> (#[trigger] steps@[k].step) <= i,
            forall|k2: int| 0 <= k2 < i ==> brute_step_ok(#[trigger] steps@[k2], bn, m, k2),
            biguint_nat(current) == probe_val(bn, i as nat, m),
            forall|j: nat| j < i ==> #[trigger] probe_val(bn, j, m) != tn,
        decreases max_steps - i,
    {
        steps.push(DiscreteLogStep {
            step: i,
            method: String::from_str("Brute Force"),
            description: brute_description(i, base_str.as_str(), &current, modulus_str.as_str()),
            current_value: biguint_to_string(&current),
            exponent: u32_to_string(i),
            found: false,
        });
        if big_eq(&current, &t_norm) {
            proof {
                lemma_probe_hit(bn, i as nat, m, tn);
                assert(mod_pow_spec(bn, i as nat, m) == tn);
            }
            let sol = u32_to_string(i);
            steps.push(DiscreteLogStep {
                step: i,
                method: String::from_str("Solution Found"),
                description: found_description(target_str.as_str(), sol.as_str()),
                current_value: biguint_to_string(&current),
                exponent: u32_to_string(i),
                found: true,
            });
            return DiscreteLogVisualization {
                base: base_str,
                target: target_str,
                modulus: modulus_str,
                solution: Some(sol),
                steps,
                method_used: String::from_str("Brute Force"),
                warnings,
                truncated: false,
            };
        }
        let ghost cur0 = biguint_nat(current);
        current = big_rem(&big_mul(&current, &b_norm), modulus);
        proof {
            lemma_step_probe(bn, i as nat, m, cur0);
        }
        i = i + 1;
    }
    DiscreteLogVisualization {
        base: base_str,
        target: target_str,
        modulus: modulus_str,
        solution: None,
        steps,
        method_used: String::from_str("Brute Force (stopped at max_steps; increase to continue)"),
        warnings,
        truncated: true,
    }
}

/// Multiplying the probe at index `i` by the base and reducing yields the
/// probe at index `i + 1`.
proof fn lemma_step_probe(b: nat, i: nat, m: nat, cur: nat)
    requires
        m > 0,
        b < m,
        cur == probe_val(b, i, m),
    ensures
        (cur * b) % m == probe_val(b, i + 1, m),
{
    lemma_pow1(b as int);
    if i == 0 {
        lemma_small_mod(b, m);
    } else {
        lemma_mul_mod_noop_general(pow(b as int, i), b as int, m as int);
        lemma_pow_adds(b as int, i, 1);
    }
}


/// The running giant-step value: the normalized target multiplied `j` times
/// by the inverse of the giant stride, reduced each time.
pub open spec fn gamma_spec(t: nat, inv: nat, m: nat, j: nat) -> nat
    decreases j,
{
    if j == 0 {
        t
    } else {
        (gamma_spec(t, inv, m, (j - 1) as nat) * inv) % m
    }
}

/// Multiplying the running giant-step value by the `j`th power of the
/// stride undoes the `j` inverse multiplications.
proof fn lemma_gamma(t: nat, inv: nat, fac: nat, m: nat, j: nat)
    requires
        m > 0,
        t < m,
        (fac * inv) % m == 1nat % m,
    ensures
        (gamma_spec(t, inv, m, j) * pow(fac as int, j)) % (m as int) == t,
    decreases j,
{
    let mi = m as int;
    if j == 0 {
        lemma_pow0(fac as int);
        lemma_small_mod(t, m);
    } else {
        lemma_gamma(t, inv, fac, m, (j - 1) as nat);
        let g0 = gamma_spec(t, inv, m, (j - 1) as nat) as int;
        let p0 = pow(fac as int, (j - 1) as nat);
        let gj = gamma_spec(t, inv, m, j) as int;
        lemma_pow1(fac as int);
        lemma_pow_adds(fac as int, 1, (j - 1) as nat);
        assert(pow(fac as int, j) == fac * p0);
        calc! {
            (==)
            (gj * pow(fac as int, j)) % mi; {
                lemma_mul_mod_noop_general(g0 * inv, pow(fac as int, j), mi);
            }
            ((g0 * inv) * (fac * p0)) % mi; {
                assert((g0 * inv) * (fac * p0) == (g0 * p0) * (inv * fac)) by (nonlinear_arith);
            }
            ((g0 * p0) * (inv * fac)) % mi; {
                lemma_mul_mod_noop_general(g0 * p0, (inv * fac) as int, mi);
                assert(inv * fac == fac * inv) by (nonlinear_arith);
                assert(((inv * fac) as int) % mi == 1int % mi);
                lemma_mul_mod_noop_general(t as int, 1int, mi);
                lemma_small_mod(t, m);
            }
            (t * 1int) % mi; {
                lemma_small_mod(t, m);
            }
            t as int;
        }
    }
}

/// A giant-step hit at table index `fi` after `j` strides solves the
/// congruence at exponent `j * mv + fi`.
proof fn lemma_bsgs_hit(bn: nat, tn: nat, m: nat, iv: nat, fv: nat, mv: nat, j: nat, fi: nat)
    requires
        m > 0,
        tn < m,
        fv == mod_pow_spec(bn, mv, m),
        (fv * iv) % m == 1nat % m,
        probe_val(bn, fi, m) == gamma_spec(tn, iv, m, j),
    ensures
        mod_pow_spec(bn, j * mv + fi, m) == tn,
{
    let mi = m as int;
    let bi = bn as int;
    lemma_gamma(tn, iv, fv, m, j);
    let g = gamma_spec(tn, iv, m, j);
    // the j-th power of the stride is the (mv * j)-th power of the base
    assert(pow(fv as int, j) % mi == pow(bi, mv * j) % mi) by {
        lemma_pow_mod_noop(pow(bi, mv), j, mi);
        lemma_pow_multiplies(bi, mv, j);
    }
    if fi == 0 {
        assert(g == 1);
        calc! {
            (==)
            (pow(bi, mv * j)) % mi; {
                lemma_mul_mod_noop_right(1int, pow(bi, mv * j), mi);
                lemma_mul_mod_noop_right(1int, pow(fv as int, j), mi);
            }
            (1int * pow(fv as int, j)) % mi; {}
            (g * pow(fv as int, j)) % mi; {
                lemma_gamma(tn, iv, fv, m, j);
            }
            tn as int;
        }
        assert(j * mv + fi == mv * j);
    } else {
        assert(pow(bi, fi) % mi == g);
        calc! {
            (==)
            pow(bi, fi + mv * j) % mi; {
                lemma_pow_adds(bi, fi, mv * j);
            }
            (pow(bi, fi) * pow(bi, mv * j)) % mi; {
                lemma_mul_mod_noop_general(pow(bi, fi), pow(bi, mv * j), mi);
                lemma_mul_mod_noop_general(pow(bi, fi), pow(fv as int, j), mi);
            }
            (pow(bi, fi) * pow(fv as int, j)) % mi; {
                lemma_mul_mod_noop_general(pow(bi, fi), pow(fv as int, j), mi);
            }
            ((pow(bi, fi) % mi) * pow(fv as int, j)) % mi; {}
            (g * pow(fv as int, j)) % mi; {
                lemma_gamma(tn, iv, fv, m, j);
            }
            tn as int;
        }
        assert(j * mv + fi == fi + mv * j);
    }
}

/// The running giant-step value stays below the modulus once the target
/// does.
proof fn lemma_gamma_lt(t: nat, inv: nat, m: nat, j: nat)
    requires
        m > 0,
        t < m,
    ensures
        gamma_spec(t, inv, m, j) < m,
    decreases j,
{
    if j > 0 {
        lemma_mod_division_less_than_divisor((gamma_spec(t, inv, m, (j - 1) as nat)
            * inv) as int, m as int);
    }
}

/// Powers of a pair whose product is one modulo `m` again multiply to one
/// modulo `m`.
proof fn lemma_inv_pow(a: nat, b: nat, m: nat, j: nat)
    requires
        m > 0,
        (a * b) % m == 1nat % m,
    ensures
        (pow(a as int, j) * pow(b as int, j)) % (m as int) == 1int % (m as int),
    decreases j,
{
    let mi = m as int;
    if j == 0 {
        lemma_pow0(a as int);
        lemma_pow0(b as int);
    } else {
        lemma_inv_pow(a, b, m, (j - 1) as nat);
        let pa = pow(a as int, (j - 1) as nat);
        let pb = pow(b as int, (j - 1) as nat);
        lemma_pow1(a as int);
        lemma_pow_adds(a as int, 1, (j - 1) as nat);
        lemma_pow1(b as int);
        lemma_pow_adds(b as int, 1, (j - 1) as nat);
        assert((a as int * pa) * (b as int * pb) == (pa * pb) * ((a * b) as int))
            by (nonlinear_arith);
        calc! {
            (==)
            (pow(a as int, j) * pow(b as int, j)) % mi; {}
            ((pa * pb) * ((a * b) as int)) % mi; {
                lemma_mul_mod_noop_general(pa * pb, (a * b) as int, mi);
            }
            (((pa * pb) % mi) * (((a * b) as int) % mi)) % mi; {}
            ((1int % mi) * (1int % mi)) % mi; {
                lemma_mul_mod_noop_general(1int, 1int, mi);
            }
            1int % mi;
        }
    }
}

/// If the exponent `j * mv + i` solves the congruence, the giant-step value
/// after `j` strides equals the baby-step probe at `i`: the meet in the
/// middle cannot miss a solution inside the searched rectangle.
proof fn lemma_bsgs_miss(bn: nat, tn: nat, m: nat, iv: nat, fv: nat, mv: nat, j: nat, i: nat)
    requires
        m >= 2,
        tn < m,
        fv == mod_pow_spec(bn, mv, m),
        (fv * iv) % m == 1nat % m,
        mod_pow_spec(bn, j * mv + i, m) == tn,
    ensures
        gamma_spec(tn, iv, m, j) == probe_val(bn, i, m),
{
    let mi = m as int;
    let bi = bn as int;
    let u = gamma_spec(tn, iv, m, j) as int;
    let v = probe_val(bn, i, m) as int;
    lemma_gamma_lt(tn, iv, m, j);
    assert(v == pow(bi, i) % mi) by {
        if i == 0 {
            lemma_pow0(bi);
            lemma_small_mod(1, m);
        }
    }
    let pj = pow(fv as int, j);
    let qj = pow(iv as int, j);
    lemma_gamma(tn, iv, fv, m, j);
    assert(pow(fv as int, j) % mi == pow(bi, mv * j) % mi) by {
        lemma_pow_mod_noop(pow(bi, mv), j, mi);
        lemma_pow_multiplies(bi, mv, j);
    }
    calc! {
        (==)
        (v * pj) % mi; {
            lemma_mul_mod_noop_left(pow(bi, i), pj, mi);
        }
        (pow(bi, i) * pj) % mi; {
            lemma_mul_mod_noop_right(pow(bi, i), pj, mi);
            lemma_mul_mod_noop_right(pow(bi, i), pow(bi, mv * j), mi);
        }
        (pow(bi, i) * pow(bi, mv * j)) % mi; {
            lemma_pow_adds(bi, i, mv * j);
            assert(i + mv * j == j * mv + i) by (nonlinear_arith);
        }
        tn as int;
    }
    lemma_inv_pow(fv, iv, m, j);
    assert((u * (pj * qj)) % mi == (v * (pj * qj)) % mi) by {
        assert(u * (pj * qj) == (u * pj) * qj) by (nonlinear_arith);
        assert(v * (pj * qj) == (v * pj) * qj) by (nonlinear_arith);
        lemma_mul_mod_noop_left(u * pj, qj, mi);
        lemma_mul_mod_noop_left(v * pj, qj, mi);
    }
    assert((u * (pj * qj)) % mi == u) by {
        lemma_mul_mod_noop_right(u, pj * qj, mi);
        lemma_small_mod(1, m);
        assert(u * (1int % mi) == u * 1 == u);
        lemma_small_mod(gamma_spec(tn, iv, m, j), m);
    }
    assert((v * (pj * qj)) % mi == v) by {
        lemma_mul_mod_noop_right(v, pj * qj, mi);
        lemma_small_mod(1, m);
        assert(v * (1int % mi) == v * 1 == v);
        lemma_mod_division_less_than_divisor(pow(bi, i), mi);
        lemma_small_mod(probe_val(bn, i, m), m);
    }
}

/// Modular inverse of an arbitrary-precision value: `None` exactly when the
/// inputs are not coprime, else the unique representative in `[0, m)`.
fn mod_inverse_big(a: &BigUint, m: &BigUint) -> (r: Option<BigUint>)
    requires
        biguint_nat(*m) > 0,
    ensures
        (r is Some) <==> gcd_nat(biguint_nat(*a), biguint_nat(*m)) == 1,
        match r {
            Some(i) => {
                &&& biguint_nat(i) < biguint_nat(*m)
                &&& (biguint_nat(*a) * biguint_nat(i)) % biguint_nat(*m)
                    == 1nat % biguint_nat(*m)
            },
            None => true,
        },
{
    let ai = int_from_big(a);
    let mi = int_from_big(m);
    match mod_inv_big(&ai, &mi) {
        Some(x) => {
            let xb = match int_to_big(&x) {
                Some(v) => v,
                None => {
                    proof {
                        assert(false);
                    }
                    vstd::pervasive::unreached()
                },
            };
            Some(xb)
        },
        None => None,
    }
}



/// Builds the baby-phase opening description.
fn bsgs_opening_description(m_val: u32) -> (r: String) {
    let mut s = String::from_str("Computing baby steps: base^i mod p for i = 0 to ");
    s.append(u32_to_string(m_val).as_str());
    s
}

/// Builds the baby-step description `Baby step i: b^i = cur (mod m)`.
fn baby_description(i: u32, base_str: &str, cur: &BigUint, modulus_str: &str) -> (r: String) {
    let mut s = String::from_str("Baby step ");
    s.append(u32_to_string(i).as_str());
    s.append(": ");
    s.append(base_str);
    s.append("^");
    s.append(u32_to_string(i).as_str());
    s.append(" \u{2261} ");
    s.append(biguint_to_string(cur).as_str());
    s.append(" (mod ");
    s.append(modulus_str);
    s.append(")");
    s
}

/// Builds the giant-step description.
fn giant_description(j: u32, gamma: &BigUint) -> (r: String) {
    let mut s = String::from_str("Giant step ");
    s.append(u32_to_string(j).as_str());
    s.append(": checking if ");
    s.append(biguint_to_string(gamma).as_str());
    s.append(" is in baby steps");
    s
}

/// Builds the giant-step exponent placeholder `j*m + ?`.
fn giant_exponent(j: u32, m_val: u32) -> (r: String) {
    let mut s = u32_to_string(j);
    s.append("*");
    s.append(u32_to_string(m_val).as_str());
    s.append(" + ?");
    s
}

/// Builds the giant-phase found description `Found solution: t = j*m + i = x`.
fn giant_found_description(target_str: &str, j: u32, m_val: u32, i: u32, sol: &str) -> (r: String) {
    let mut s = String::from_str("Found solution: ");
    s.append(target_str);
    s.append(" = ");
    s.append(u32_to_string(j).as_str());
    s.append("*");
    s.append(u32_to_string(m_val).as_str());
    s.append(" + ");
    s.append(u32_to_string(i).as_str());
    s.append(" = ");
    s.append(sol);
    s
}

/// The truncation warning with the recommended step count.
pub open spec fn trunc_warning_text(ideal: nat, ms: nat) -> Seq<char> {
    "Search truncated by max_steps. Recommended m\u{2248}ceil(sqrt(p-1))="@ + dec_of(ideal)
        + ", but max_steps="@ + dec_of(ms) + "."@
}

/// Builds the truncation warning with the recommended step count.
fn truncation_warning(ideal: &BigUint, max_steps: u32) -> (r: String)
    ensures
        r@ == trunc_warning_text(biguint_nat(*ideal), max_steps as nat),
{
    let mut s = String::from_str(
        "Search truncated by max_steps. Recommended m\u{2248}ceil(sqrt(p-1))=");
    s.append(biguint_to_string(ideal).as_str());
    s.append(", but max_steps=");
    s.append(u32_to_string(max_steps).as_str());
    s.append(".");
    s
}

/// The number of baby and of giant steps the search takes: the ceiling
/// square root of one less than the modulus, capped by the step budget.
pub open spec fn bsgs_step_count(m: nat, max_steps: nat) -> nat {
    if spec_isqrt((m - 1) as nat) + 1 > max_steps {
        max_steps
    } else {
        spec_isqrt((m - 1) as nat) + 1
    }
}

/// Baby-step/giant-step discrete logarithm: normalizes the inputs, warns of
/// weakened assumptions, chooses the step count as the ceiling square root
/// of one less than the modulus capped by the budget (flagging truncation
/// exactly when the cap bites), tabulates the baby steps, and walks the
/// giant steps through the table. A reported solution is proved to satisfy
/// the congruence and to lie inside the searched rectangle; a `None` with
/// the exhausted tag is proved to mean that no exponent below the squared
/// step count solves it, and the missing-inverse tag appears exactly when
/// the giant stride has no inverse. The step indices of the trace strictly
/// increase.
pub fn baby_step_giant_step(base: &BigUint, target: &BigUint, modulus: &BigUint, max_steps: u32)
    -> (r: DiscreteLogVisualization)
    requires
        biguint_nat(*modulus) > 0,
        max_steps <= 0x7fff_ffff,
    ensures
        ({
            let m = biguint_nat(*modulus);
            let bn = biguint_nat(*base) % m;
            let tn = biguint_nat(*target) % m;
            &&& r.base@ == dec_of(bn)
            &&& r.target@ == dec_of(tn)
            &&& r.modulus@ == dec_of(m)
            &&& r.truncated == (spec_isqrt((m - 1) as nat) + 1 > max_steps)
            &&& match r.solution {
                Some(s) => exists|x: nat| {
                    &&& #[trigger] mod_pow_spec(bn, x, m) == tn
                    &&& s@ == dec_of(x)
                    &&& x < bsgs_step_count(m, max_steps as nat) * bsgs_step_count(m,
                        max_steps as nat)
                },
                None => forall|i: nat| i < bsgs_step_count(m, max_steps as nat)
                    ==> #[trigger] probe_val(bn, i, m) != tn,
            }
            &&& (r.solution is Some ==> r.method_used@ == "Baby-step Giant-step"@)
            &&& (r.solution is None ==> r.method_used@
                == "Baby-step Giant-step (failed - no inverse)"@ || r.method_used@
                == "Baby-step Giant-step (no solution found)"@)
            &&& (r.solution is None ==> ((r.method_used@
                == "Baby-step Giant-step (failed - no inverse)"@) <==> gcd_nat(mod_pow_spec(bn,
                bsgs_step_count(m, max_steps as nat), m), m) != 1))
            &&& (m >= 2 && r.solution is None && r.method_used@
                == "Baby-step Giant-step (no solution found)"@ ==> forall|x: nat| x
                < bsgs_step_count(m, max_steps as nat) * bsgs_step_count(m, max_steps as nat)
                ==> #[trigger] mod_pow_spec(bn, x, m) != tn)
            &&& r.warnings@.map_values(|w: String| w@) == dl_warnings(biguint_nat(*base),
                biguint_nat(*target), m, "Modulus is not prime; BSGS works best with prime modulus."@)
                + (if spec_isqrt((m - 1) as nat) + 1 > max_steps {
                    seq![trunc_warning_text(spec_isqrt((m - 1) as nat) + 1, max_steps as nat)]
                } else {
                    Seq::<Seq<char>>::empty()
                })
            &&& steps_strictly_ordered(r.steps@)
            &&& r.steps@.len() >= 1
            &&& r.steps@[0].step == 0
        }),
{
    let ghost m = biguint_nat(*modulus);
    let b_norm = big_rem(base, modulus);
    let t_norm = big_rem(target, modulus);
    let ghost bn = biguint_nat(b_norm);
    let ghost tn = biguint_nat(t_norm);
    let mut steps: Vec<DiscreteLogStep> = Vec::new();
    let mut warnings: Vec<String> = Vec::new();
    push_common_warnings(&mut warnings, base, target, modulus, &b_norm, &t_norm,
        "Modulus is not prime; BSGS works best with prime modulus.");

    let base_str = biguint_to_string(&b_norm);
    let target_str = biguint_to_string(&t_norm);
    let modulus_str = biguint_to_string(modulus);

    let one = big_from_u64(1);
    let p_minus_1 = big_sub(modulus, &one);
    let root = big_sqrt(&p_minus_1);
    let ideal_m = big_add(&root, &one);
    proof {
        lemma_isqrt_unique((m - 1) as nat, biguint_nat(root));
    }
    let ghost ideal = spec_isqrt((m - 1) as nat) + 1;
    let max_b = big_from_u64(max_steps as u64);
    let mut truncated = false;
    let m_val: u32;
    if big_lt(&max_b, &ideal_m) {
        truncated = true;
        m_val = max_steps;
        warnings.push(truncation_warning(&ideal_m, max_steps));
    } else {
        m_val = match big_to_u32(&ideal_m) {
            Some(v) => v,
            None => {
                proof {
                    assert(false);
                }
                vstd::pervasive::unreached()
            },
        };
    }
    let ghost mval = bsgs_step_count(m, max_steps as nat);
    proof {
        assert(truncated == (ideal > max_steps));
        assert(m_val as nat == mval);
        assert(warnings@.map_values(|w: String| w@) =~~= dl_warnings(biguint_nat(*base),
            biguint_nat(*target), m, "Modulus is not prime; BSGS works best with prime modulus."@)
            + (if ideal > max_steps {
                seq![trunc_warning_text(ideal, max_steps as nat)]
            } else {
                Seq::<Seq<char>>::empty()
            }));
    }
    let ghost expected_warnings = dl_warnings(biguint_nat(*base), biguint_nat(*target), m,
        "Modulus is not prime; BSGS works best with prime modulus."@) + (if ideal > max_steps {
        seq![trunc_warning_text(ideal, max_steps as nat)]
    } else {
        Seq::<Seq<char>>::empty()
    });

    steps.push(DiscreteLogStep {
        step: 0,
        method: String::from_str("Baby-step Giant-step"),
        description: bsgs_opening_description(m_val),
        current_value: String::from_str("1"),
        exponent: String::from_str("0"),
        found: false,
    });

    let mut table: Vec<BigUint> = Vec::new();
    let mut current = big_clone(&one);
    proof {
        lemma_mod_division_less_than_divisor(biguint_nat(*base) as int, m as int);
        lemma_mod_division_less_than_divisor(biguint_nat(*target) as int, m as int);
    }
    let mut i: u32 = 0;
    while i < m_val
        invariant
            m == biguint_nat(*modulus),
            m > 0,
            bn == biguint_nat(b_norm) && bn < m,
            tn == biguint_nat(t_norm) && tn < m,
            bn == biguint_nat(*base) % m,
            tn == biguint_nat(*target) % m,
            base_str@ == dec_of(bn),
            target_str@ == dec_of(tn),
            modulus_str@ == dec_of(m),
            truncated == (ideal > max_steps),
            ideal == spec_isqrt((m - 1) as nat) + 1,
            warnings@.map_values(|w: String| w@) == expected_warnings,
            expected_warnings == dl_warnings(biguint_nat(*base), biguint_nat(*target), m,
                "Modulus is not prime; BSGS works best with prime modulus."@)
                + (if ideal > max_steps {
                    seq![trunc_warning_text(ideal, max_steps as nat)]
                } else {
                    Seq::<Seq<char>>::empty()
                }),
            m_val <= max_steps <= 0x7fff_ffff,
            m_val as nat == mval && mval == bsgs_step_count(m, max_steps as nat),
            i <= m_val,
            steps_strictly_ordered(steps@),
            steps@.len() >= 1 && steps@[0].step == 0,
            forall|k: int| 0 <= k < steps@.len() ==> (#[trigger] steps@[k].step) <= i,
            forall|q2: nat| q2 < i ==> #[trigger] probe_val(bn, q2, m) != tn,
            table@.len() == i,
            forall|k: int| 0 <= k < i ==> biguint_nat(table@[k]) == probe_val(bn, k as nat, m),
            biguint_nat(current) == probe_val(bn, i as nat, m),
        decreases m_val - i,
    {
        table.push(big_clone(&current));
        steps.push(DiscreteLogStep {
            step: i + 1,
            method: String::from_str("Baby-step"),
            description: baby_description(i, base_str.as_str(), &current, modulus_str.as_str()),
            current_value: biguint_to_string(&current),
            exponent: u32_to_string(i),
            found: false,
        });
        if big_eq(&current, &t_norm) {
            proof {
                lemma_probe_hit(bn, i as nat, m, tn);
                assert(mod_pow_spec(bn, i as nat, m) == tn);
            }
            proof {
                assert((i as nat) < mval * mval) by (nonlinear_arith)
                    requires i < m_val && m_val as nat == mval;
            }
            let sol = u32_to_string(i);
            steps.push(DiscreteLogStep {
                step: i + 2,
                method: String::from_str("Solution Found"),
                description: found_description(target_str.as_str(), sol.as_str()),
                current_value: biguint_to_string(&current),
                exponent: u32_to_string(i),
                found: true,
            });
            return DiscreteLogVisualization {
                base: base_str,
                target: target_str,
                modulus: modulus_str,
                solution: Some(sol),
                steps,
                method_used: String::from_str("Baby-step Giant-step"),
                warnings,
                truncated,
            };
        }
        let ghost cur0 = biguint_nat(current);
        current = big_rem(&big_mul(&current, &b_norm), modulus);
        proof {
            lemma_step_probe(bn, i as nat, m, cur0);
        }
        i = i + 1;
    }

    let m_big = big_from_u64(m_val as u64);
    let factor_pow = mod_pow_big(&b_norm, &m_big, modulus);
    let ghost fv = biguint_nat(factor_pow);
    let base_inv = match mod_inverse_big(&factor_pow, modulus) {
        Some(v) => v,
        None => {
            proof {
                broadcast use vstd::string::group_string_axioms;

                reveal_strlit("Baby-step Giant-step (failed - no inverse)");
                reveal_strlit("Baby-step Giant-step (no solution found)");
                assert("Baby-step Giant-step (failed - no inverse)"@.len() == 42);
                assert("Baby-step Giant-step (no solution found)"@.len() == 40);
                assert("Baby-step Giant-step (failed - no inverse)"@
                    != "Baby-step Giant-step (no solution found)"@);
            }
            return DiscreteLogVisualization {
                base: base_str,
                target: target_str,
                modulus: modulus_str,
                solution: None,
                steps,
                method_used: String::from_str("Baby-step Giant-step (failed - no inverse)"),
                warnings,
                truncated,
            };
        },
    };
    let ghost iv = biguint_nat(base_inv);

    let mut gamma = big_clone(&t_norm);
    let mut j: u32 = 0;
    while j < m_val
        invariant
            m == biguint_nat(*modulus),
            m > 0,
            bn == biguint_nat(b_norm) && bn < m,
            tn == biguint_nat(t_norm) && tn < m,
            bn == biguint_nat(*base) % m,
            tn == biguint_nat(*target) % m,
            base_str@ == dec_of(bn),
            target_str@ == dec_of(tn),
            modulus_str@ == dec_of(m),
            truncated == (ideal > max_steps),
            ideal == spec_isqrt((m - 1) as nat) + 1,
            warnings@.map_values(|w: String| w@) == expected_warnings,
            expected_warnings == dl_warnings(biguint_nat(*base), biguint_nat(*target), m,
                "Modulus is not prime; BSGS works best with prime modulus."@)
                + (if ideal > max_steps {
                    seq![trunc_warning_text(ideal, max_steps as nat)]
                } else {
                    Seq::<Seq<char>>::empty()
                }),
            m_val <= max_steps <= 0x7fff_ffff,
            m_val as nat == mval && mval == bsgs_step_count(m, max_steps as nat),
            j <= m_val,
            steps_strictly_ordered(steps@),
            steps@.len() >= 1 && steps@[0].step == 0,
            forall|k: int| 0 <= k < steps@.len() ==> (#[trigger] steps@[k].step) <= m_val + j,
            forall|q2: nat| q2 < m_val ==> #[trigger] probe_val(bn, q2, m) != tn,
            gcd_nat(fv, m) == 1,
            m >= 2 ==> forall|x: nat| x < (j as nat) * mval ==> #[trigger] mod_pow_spec(bn, x,
                m) != tn,
            table@.len() == m_val,
            forall|k: int| 0 <= k < m_val ==> biguint_nat(table@[k]) == probe_val(bn, k as nat, m),
            fv == mod_pow_spec(bn, m_val as nat, m),
            iv == biguint_nat(base_inv),
            (fv * iv) % m == 1nat % m,
            biguint_nat(gamma) == gamma_spec(tn, iv, m, j as nat),
        decreases m_val - j,
    {
        steps.push(DiscreteLogStep {
            step: m_val + j + 1,
            method: String::from_str("Giant-step"),
            description: giant_description(j, &gamma),
            current_value: biguint_to_string(&gamma),
            exponent: giant_exponent(j, m_val),
            found: false,
        });

        let mut found_i: Option<u32> = None;
        let mut k: usize = 0;
        while k < table.len()
            invariant
                table@.len() == m_val,
                k <= m_val,
                forall|t: int| 0 <= t < m_val ==> biguint_nat(table@[t]) == probe_val(bn,
                    t as nat, m),
                match found_i {
                    Some(fi) => fi < k && probe_val(bn, fi as nat, m) == biguint_nat(gamma),
                    None => forall|t2: int| 0 <= t2 < k ==> biguint_nat(#[trigger] table@[t2])
                        != biguint_nat(gamma),
                },
            decreases table@.len() - k,
        {
            if big_eq(&table[k], &gamma) {
                found_i = Some(k as u32);
            }
            k = k + 1;
        }

        if let Some(fi) = found_i {
            proof {
                assert((j as int) * (m_val as int) + fi <= 0x7fff_ffff * 0x7fff_ffffint
                    + 0x7fff_ffff) by (nonlinear_arith)
                    requires j <= 0x7fff_ffff && m_val <= 0x7fff_ffff && fi <= 0x7fff_ffff;
            }
            let sol_num: u64 = (j as u64) * (m_val as u64) + (fi as u64);
            proof {
                lemma_bsgs_hit(bn, tn, m, iv, fv, m_val as nat, j as nat, fi as nat);
                assert(mod_pow_spec(bn, (j as nat) * (m_val as nat) + (fi as nat), m) == tn);
                assert(sol_num as nat == (j as nat) * (m_val as nat) + (fi as nat));
            }
            proof {
                assert((j as nat) * mval + (fi as nat) < mval * mval) by (nonlinear_arith)
                    requires j < m_val && fi < m_val && m_val as nat == mval;
            }
            let sol = u64_to_string(sol_num);
            steps.push(DiscreteLogStep {
                step: m_val + j + 2,
                method: String::from_str("Solution Found"),
                description: giant_found_description(target_str.as_str(), j, m_val, fi,
                    sol.as_str()),
                current_value: biguint_to_string(&gamma),
                exponent: u64_to_string(sol_num),
                found: true,
            });
            return DiscreteLogVisualization {
                base: base_str,
                target: target_str,
                modulus: modulus_str,
                solution: Some(sol),
                steps,
                method_used: String::from_str("Baby-step Giant-step"),
                warnings,
                truncated,
            };
        }

        proof {
            if m >= 2 {
                assert forall|x: nat| x < ((j + 1) as nat) * mval implies #[trigger] mod_pow_spec(
                    bn, x, m) != tn by {
                    if x >= (j as nat) * mval {
                        let ii = (x - (j as nat) * mval) as nat;
                        assert(ii < mval) by (nonlinear_arith)
                            requires x < ((j + 1) as nat) * mval && x >= (j as nat) * mval
                                && ii == x - (j as nat) * mval;
                        if mod_pow_spec(bn, x, m) == tn {
                            assert(x == (j as nat) * mval + ii);
                            lemma_bsgs_miss(bn, tn, m, iv, fv, mval, j as nat, ii);
                            assert(biguint_nat(table@[ii as int]) == probe_val(bn, ii, m));
                            assert(false);
                        }
                    }
                }
            }
        }
        gamma = big_rem(&big_mul(&gamma, &base_inv), modulus);
        j = j + 1;
    }

    proof {
        broadcast use vstd::string::group_string_axioms;

        reveal_strlit("Baby-step Giant-step (failed - no inverse)");
        reveal_strlit("Baby-step Giant-step (no solution found)");
        assert("Baby-step Giant-step (failed - no inverse)"@.len() == 42);
        assert("Baby-step Giant-step (no solution found)"@.len() == 40);
        assert("Baby-step Giant-step (failed - no inverse)"@
            != "Baby-step Giant-step (no solution found)"@);
    }
    DiscreteLogVisualization {
        base: base_str,
        target: target_str,
        modulus: modulus_str,
        solution: None,
        steps,
        method_used: String::from_str("Baby-step Giant-step (no solution found)"),
        warnings,
        truncated,
    }
}


} // verus!
