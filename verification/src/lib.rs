//! Educational cryptographic computation engine: arbitrary-precision number
//! theory (modular exponentiation, gcd, extended Euclid, modular inverse), a
//! fixed-witness probabilistic primality test, randomized prime generation,
//! RSA keypair derivation, Diffie-Hellman parameter search and exchange
//! simulation, discrete-logarithm solvers that emit an ordered step trace,
//! and steppable AES-128 and SHA-256 visualizations.
//!
//! Callers supply base-ten decimal strings (or plain integers) and receive
//! decimal strings and structured step records back; every algorithmic
//! decision between those boundaries is verified. Invalid decimal input is a
//! caller contract violation, excluded by preconditions.

pub mod aes;
pub mod bignum;
pub mod diffie_hellman;
pub mod discrete_log;
pub mod number_theory;
pub mod rsa;
pub mod sha256;
pub mod util;

use vstd::prelude::*;
use vstd::arithmetic::power2::pow2;
use vstd::string::StringSliceAdditionalSpecFns;
use num_bigint::BigUint;
use crate::bignum::{
    big_add, big_eq, big_from_u64, big_lt, big_mul, big_rem, big_sub, big_to_u32, biguint_nat,
    bigint_int, int_to_big, dec_of, dec_val, int_dec_of, int_from_big, int_to_dec, int_from_dec, is_dec_seq,
    is_signed_dec_seq, signed_dec_val,
};
use crate::number_theory::{
    egcd_big, egcd_g, gcd_big, gcd_nat, gen_prime_bits, is_probable_prime, lambda_of_pq, lcm_big,
    lcm_nat, mod_inv_big, mod_pow_big, mod_pow_spec, phi_of_pq, spec_probable_prime,
};
use crate::rsa::{generate_rsa_keypair_internal, keypair_wf, KeyPair};
use crate::util::{biguint_to_string, parse_biguint, seeded_rng};

verus! {

/// The extended-Euclid answer for a pair of signed decimal inputs.
pub struct EgcdResult {
    pub g: String,
    pub x: String,
    pub y: String,
}

/// Generates a random probable prime of the given bit length and renders it
/// in decimal; `None` when the bounded search is exhausted.
pub fn generate_prime(bits: u32) -> (r: Option<String>)
    requires
        bits >= 2,
    ensures
        match r {
            Some(s) => exists|p: nat| {
                &&& s@ == dec_of(p)
                &&& #[trigger] spec_probable_prime(p)
                &&& pow2((bits - 1) as nat) <= p < pow2(bits as nat)
                &&& p % 2 == 1
            },
            None => true,
        },
{
    let mut rng = seeded_rng(None);
    match gen_prime_bits(bits, &mut rng) {
        Some(p) => {
            proof {
                assert(spec_probable_prime(biguint_nat(p)));
            }
            Some(biguint_to_string(&p))
        },
        None => None,
    }
}

/// Whether a decimal string denotes a probable prime under the fixed-witness
/// test.
pub fn is_prime(n: &str) -> (r: bool)
    requires
        is_dec_seq(n@),
    ensures
        r == spec_probable_prime(dec_val(n@)),
{
    let n = parse_biguint(n);
    is_probable_prime(&n)
}

/// Modular exponentiation on decimal strings; a zero modulus yields zero.
pub fn mod_pow(base: &str, exp: &str, modulus: &str) -> (r: String)
    requires
        is_dec_seq(base@),
        is_dec_seq(exp@),
        is_dec_seq(modulus@),
    ensures
        r@ == dec_of(mod_pow_spec(dec_val(base@), dec_val(exp@), dec_val(modulus@))),
{
    let b = parse_biguint(base);
    let e = parse_biguint(exp);
    let m = parse_biguint(modulus);
    biguint_to_string(&mod_pow_big(&b, &e, &m))
}

/// Greatest common divisor on decimal strings.
pub fn gcd(a: &str, b: &str) -> (r: String)
    requires
        is_dec_seq(a@),
        is_dec_seq(b@),
    ensures
        r@ == dec_of(gcd_nat(dec_val(a@), dec_val(b@))),
{
    let a = parse_biguint(a);
    let b = parse_biguint(b);
    biguint_to_string(&gcd_big(&a, &b))
}

/// Least common multiple on decimal strings; zero when either input is zero.
pub fn lcm(a: &str, b: &str) -> (r: String)
    requires
        is_dec_seq(a@),
        is_dec_seq(b@),
    ensures
        r@ == dec_of(lcm_nat(dec_val(a@), dec_val(b@))),
{
    let a = parse_biguint(a);
    let b = parse_biguint(b);
    biguint_to_string(&lcm_big(&a, &b))
}

/// Extended Euclidean algorithm on signed decimal strings: the rendered
/// `(g, x, y)` satisfy `a*x + b*y == g`, with `g` the chain value of the
/// recursion (the greatest common divisor for non-negative inputs).
pub fn egcd(a: &str, b: &str) -> (r: EgcdResult)
    requires
        is_signed_dec_seq(a@),
        is_signed_dec_seq(b@),
    ensures
        exists|gv: int, xv: int, yv: int| {
            &&& r.g@ == #[trigger] int_dec_of(gv)
            &&& r.x@ == #[trigger] int_dec_of(xv)
            &&& r.y@ == #[trigger] int_dec_of(yv)
            &&& signed_dec_val(a@) * xv + signed_dec_val(b@) * yv == gv
            &&& gv == egcd_g(signed_dec_val(a@), signed_dec_val(b@))
            &&& (signed_dec_val(b@) == 0 ==> xv == 1 && yv == 0)
        },
{
    let av = match int_from_dec(a) {
        Some(v) => v,
        None => {
            proof {
                assert(false);
            }
            vstd::pervasive::unreached()
        },
    };
    let bv = match int_from_dec(b) {
        Some(v) => v,
        None => {
            proof {
                assert(false);
            }
            vstd::pervasive::unreached()
        },
    };
    let (g, x, y) = egcd_big(&av, &bv);
    let ghost gv = bigint_int(g);
    let ghost xv = bigint_int(x);
    let ghost yv = bigint_int(y);
    let r = EgcdResult { g: int_to_dec(&g), x: int_to_dec(&x), y: int_to_dec(&y) };
    proof {
        assert(r.g@ == int_dec_of(gv) && r.x@ == int_dec_of(xv) && r.y@ == int_dec_of(yv)
            && signed_dec_val(a@) * xv + signed_dec_val(b@) * yv == gv
            && gv == egcd_g(signed_dec_val(a@), signed_dec_val(b@))
            && (signed_dec_val(b@) == 0 ==> xv == 1 && yv == 0));
    }
    r
}

/// Modular inverse on signed decimal strings: `None` when the inputs are not
/// coprime (exactly then, for a non-negative value), else the inverse
/// rendered from `[0, m)`.
pub fn mod_inv(a: &str, m: &str) -> (r: Option<String>)
    requires
        is_signed_dec_seq(a@),
        is_signed_dec_seq(m@),
        signed_dec_val(m@) > 0,
    ensures
        signed_dec_val(a@) >= 0 ==> ((r is Some) <==> gcd_nat(signed_dec_val(a@) as nat,
            signed_dec_val(m@) as nat) == 1),
        match r {
            Some(s) => exists|iv: int| {
                &&& s@ == int_dec_of(iv)
                &&& 0 <= iv < signed_dec_val(m@)
                &&& #[trigger] ((signed_dec_val(a@) * iv) % signed_dec_val(m@))
                    == 1int % signed_dec_val(m@)
            },
            None => true,
        },
{
    let av = match int_from_dec(a) {
        Some(v) => v,
        None => {
            proof {
                assert(false);
            }
            vstd::pervasive::unreached()
        },
    };
    let mv = match int_from_dec(m) {
        Some(v) => v,
        None => {
            proof {
                assert(false);
            }
            vstd::pervasive::unreached()
        },
    };
    match mod_inv_big(&av, &mv) {
        Some(inv) => {
            let ghost iv = bigint_int(inv);
            let s = int_to_dec(&inv);
            proof {
                assert(s@ == int_dec_of(iv) && 0 <= iv < signed_dec_val(m@)
                    && (signed_dec_val(a@) * iv) % signed_dec_val(m@)
                    == 1int % signed_dec_val(m@));
            }
            Some(s)
        },
        None => None,
    }
}

/// The product of two decimal-string factors, rendered in decimal.
pub fn n_from_pq(p: &str, q: &str) -> (r: String)
    requires
        is_dec_seq(p@),
        is_dec_seq(q@),
    ensures
        r@ == dec_of(dec_val(p@) * dec_val(q@)),
{
    let p = parse_biguint(p);
    let q = parse_biguint(q);
    biguint_to_string(&big_mul(&p, &q))
}

/// Euler's totient `(p-1)(q-1)` on decimal strings.
pub fn phi_of(p: &str, q: &str) -> (r: String)
    requires
        is_dec_seq(p@),
        is_dec_seq(q@),
        dec_val(p@) >= 1,
        dec_val(q@) >= 1,
    ensures
        r@ == dec_of(((dec_val(p@) - 1) * (dec_val(q@) - 1)) as nat),
{
    let p = parse_biguint(p);
    let q = parse_biguint(q);
    biguint_to_string(&phi_of_pq(&p, &q))
}

/// The Carmichael function `lcm(p-1, q-1)` on decimal strings.
pub fn lambda_of(p: &str, q: &str) -> (r: String)
    requires
        is_dec_seq(p@),
        is_dec_seq(q@),
        dec_val(p@) >= 1,
        dec_val(q@) >= 1,
    ensures
        r@ == dec_of(lcm_nat((dec_val(p@) - 1) as nat, (dec_val(q@) - 1) as nat)),
{
    let p = parse_biguint(p);
    let q = parse_biguint(q);
    biguint_to_string(&lambda_of_pq(&p, &q))
}

/// `d` is the canonical modular inverse of `a`: the representative below
/// the modulus whose product with `a` is one modulo it.
pub open spec fn is_mod_inverse(a: nat, d: nat, m: nat) -> bool {
    d < m && (a * d) % m == 1nat % m
}

/// The totient used by the exponent-selection routines: Euler's `(p-1)(q-1)`
/// or the Carmichael `lcm(p-1, q-1)`.
pub open spec fn totient_of(p: nat, q: nat, use_lambda: bool) -> nat {
    if use_lambda {
        lcm_nat((p - 1) as nat, (q - 1) as nat)
    } else {
        ((p - 1) * (q - 1)) as nat
    }
}

/// The totient of two values at least two is positive.
proof fn lemma_totient_pos(p: nat, q: nat)
    requires
        p >= 2,
        q >= 2,
    ensures
        (p - 1) * (q - 1) >= 1,
        lcm_nat((p - 1) as nat, (q - 1) as nat) >= 1,
{
    assert((p - 1) * (q - 1) >= 1) by (nonlinear_arith)
        requires p >= 2 && q >= 2;
    let a = (p - 1) as nat;
    let b = (q - 1) as nat;
    crate::number_theory::lemma_gcd_pos(a, b);
    crate::number_theory::lemma_gcd_divides(a, b);
    let g = gcd_nat(a, b);
    assert(lcm_nat(a, b) == (a * b) / g);
    let k = choose|k: nat| a == #[trigger] (g * k);
    assert(a >= g) by (nonlinear_arith)
        requires a == g * k && a >= 1 && g >= 1;
    assert(a * b >= g) by (nonlinear_arith)
        requires a >= g && b >= 1 && g >= 1;
    assert((a * b) / g >= 1) by {
        vstd::arithmetic::div_mod::lemma_div_is_ordered(g as int, (a * b) as int, g as int);
        vstd::arithmetic::div_mod::lemma_div_by_self(g as int);
    }
}

/// Derives the private exponent for a given public exponent and prime pair:
/// the inverse of `e` modulo the chosen totient, `None` when `e` does not
/// parse or no inverse exists.
pub fn d_from_e_pq(e: &str, p: &str, q: &str, use_lambda: bool) -> (r: Option<String>)
    requires
        is_dec_seq(p@),
        is_dec_seq(q@),
        dec_val(p@) >= 2,
        dec_val(q@) >= 2,
    ensures
        ({
            let tot = totient_of(dec_val(p@), dec_val(q@), use_lambda) as int;
            &&& (is_signed_dec_seq(e@) && signed_dec_val(e@) >= 0 ==> ((r is Some)
                <==> gcd_nat(signed_dec_val(e@) as nat, tot as nat) == 1))
            &&& match r {
                Some(s) => is_signed_dec_seq(e@) ==> exists|dv: int| {
                    &&& s@ == int_dec_of(dv)
                    &&& 0 <= dv < tot
                    &&& #[trigger] ((signed_dec_val(e@) * dv) % tot) == 1int % tot
                },
                None => true,
            }
        }),
{
    let ev = match int_from_dec(e) {
        Some(v) => v,
        None => { return None; },
    };
    let p_b = parse_biguint(p);
    let q_b = parse_biguint(q);
    let tot = if use_lambda {
        lambda_of_pq(&p_b, &q_b)
    } else {
        phi_of_pq(&p_b, &q_b)
    };
    proof {
        lemma_totient_pos(dec_val(p@), dec_val(q@));
    }
    let tot_i = int_from_big(&tot);
    match mod_inv_big(&ev, &tot_i) {
        Some(d) => {
            let ghost dv = bigint_int(d);
            let s = int_to_dec(&d);
            proof {
                let tot_g = totient_of(dec_val(p@), dec_val(q@), use_lambda) as int;
                if is_signed_dec_seq(e@) {
                    assert(s@ == int_dec_of(dv) && 0 <= dv < tot_g
                        && (signed_dec_val(e@) * dv) % tot_g == 1int % tot_g);
                }
            }
            Some(s)
        },
        None => None,
    }
}

/// RSA encryption of a numeric message: exponentiation on decimal strings.
pub fn encrypt(message: &str, e: &str, n: &str) -> (r: String)
    requires
        is_dec_seq(message@),
        is_dec_seq(e@),
        is_dec_seq(n@),
    ensures
        r@ == dec_of(mod_pow_spec(dec_val(message@), dec_val(e@), dec_val(n@))),
{
    let m = parse_biguint(message);
    let e = parse_biguint(e);
    let n = parse_biguint(n);
    biguint_to_string(&mod_pow_big(&m, &e, &n))
}

/// RSA decryption of a numeric ciphertext: exponentiation on decimal
/// strings.
pub fn decrypt(ciphertext: &str, d: &str, n: &str) -> (r: String)
    requires
        is_dec_seq(ciphertext@),
        is_dec_seq(d@),
        is_dec_seq(n@),
    ensures
        r@ == dec_of(mod_pow_spec(dec_val(ciphertext@), dec_val(d@), dec_val(n@))),
{
    let c = parse_biguint(ciphertext);
    let d = parse_biguint(d);
    let n = parse_biguint(n);
    biguint_to_string(&mod_pow_big(&c, &d, &n))
}

/// Derives an RSA keypair of roughly the requested bit length; `None` when
/// the bounded random search is exhausted.
pub fn rsa_keypair(bits: u32) -> (r: Option<KeyPair>)
    requires
        bits >= 4,
    ensures
        match r {
            Some(kp) => {
                &&& keypair_wf(kp)
                &&& pow2((bits / 2 - 1) as nat) <= biguint_nat(kp.p) < pow2((bits / 2) as nat)
                &&& pow2((bits / 2 - 1) as nat) <= biguint_nat(kp.q) < pow2((bits / 2) as nat)
                &&& biguint_nat(kp.e) == if gcd_nat(65537, ((biguint_nat(kp.p) - 1)
                    * (biguint_nat(kp.q) - 1)) as nat) == 1 {
                    65537nat
                } else {
                    3nat
                }
            },
            None => true,
        },
{
    generate_rsa_keypair_internal(bits, None)
}

/// Maps each residue index below `count` through modular exponentiation and
/// reduces the result into the index range: the cell at `i` holds
/// `(i^e mod n) mod count`.
pub fn map_modexp(e: &str, n: &str, count: u32) -> (r: Vec<u32>)
    requires
        is_dec_seq(e@),
        is_dec_seq(n@),
    ensures
        r@.len() == count,
        forall|i: int| 0 <= i < count ==> r@[i]
            == mod_pow_spec(i as nat, dec_val(e@), dec_val(n@)) % (count as nat),
{
    let e_b = parse_biguint(e);
    let n_b = parse_biguint(n);
    let mut out: Vec<u32> = Vec::new();
    let c_b = big_from_u64(count as u64);
    let mut i: u32 = 0;
    while i < count
        invariant
            biguint_nat(e_b) == dec_val(e@),
            biguint_nat(n_b) == dec_val(n@),
            biguint_nat(c_b) == count,
            i <= count,
            out@.len() == i,
            forall|k: int| 0 <= k < i ==> out@[k]
                == mod_pow_spec(k as nat, dec_val(e@), dec_val(n@)) % (count as nat),
        decreases count - i,
    {
        let i_b = big_from_u64(i as u64);
        let v = mod_pow_big(&i_b, &e_b, &n_b);
        let rem = big_rem(&v, &c_b);
        proof {
            vstd::arithmetic::div_mod::lemma_mod_division_less_than_divisor(
                biguint_nat(v) as int, count as int);
        }
        let idx = match big_to_u32(&rem) {
            Some(x) => x,
            None => {
                proof {
                    assert(false);
                }
                vstd::pervasive::unreached()
            },
        };
        out.push(idx);
        i = i + 1;
    }
    out
}

/// The big-endian base-256 value of a byte string.
pub open spec fn be_bytes_val(bytes: Seq<u8>) -> nat
    decreases bytes.len(),
{
    if bytes.len() == 0 {
        0
    } else {
        be_bytes_val(bytes.drop_last()) * 256 + bytes.last() as nat
    }
}

/// Encodes text as an integer: the big-endian base-256 value of its bytes,
/// rendered in decimal.
pub fn text_to_big(s: &str) -> (r: String)
    ensures
        r@ == dec_of(be_bytes_val(s.spec_bytes())),
{
    let bytes = s.as_bytes();
    let b256 = big_from_u64(256);
    let mut acc = big_from_u64(0);
    let mut i: usize = 0;
    while i < bytes.len()
        invariant
            biguint_nat(b256) == 256,
            i <= bytes@.len(),
            bytes@ == s.spec_bytes(),
            biguint_nat(acc) == be_bytes_val(bytes@.subrange(0, i as int)),
        decreases bytes@.len() - i,
    {
        let byte = big_from_u64(bytes[i] as u64);
        acc = big_add(&big_mul(&acc, &b256), &byte);
        proof {
            assert(bytes@.subrange(0, i + 1).drop_last() =~= bytes@.subrange(0, i as int));
        }
        i = i + 1;
    }
    proof {
        assert(bytes@.subrange(0, bytes@.len() as int) =~= bytes@);
    }
    biguint_to_string(&acc)
}

/// The big-endian base-256 digits of a value, most significant first and
/// without leading zeros; empty for zero.
pub open spec fn bytes_of_nat(v: nat) -> Seq<u8>
    decreases v,
{
    if v == 0 {
        Seq::empty()
    } else {
        bytes_of_nat(v / 256).push((v % 256) as u8)
    }
}

/// Decodes an integer back to text: the decimal string is read, split into
/// big-endian base-256 bytes, and decoded as UTF-8; `None` when the string
/// does not parse or the bytes are not valid text. Zero decodes to the
/// empty string; a value whose bytes are all ASCII decodes to exactly those
/// characters.
pub fn big_to_text(n_str: &str) -> (r: Option<String>)
    ensures
        is_dec_seq(n_str@) && dec_val(n_str@) == 0 ==> match r {
            Some(s) => s@ =~= Seq::<char>::empty(),
            None => false,
        },
        ({
            let digits = bytes_of_nat(dec_val(n_str@));
            is_dec_seq(n_str@) && (forall|k: int| 0 <= k < digits.len()
                ==> digits[k] < 128) ==> match r {
                Some(s) => s@.len() == digits.len() && (forall|i: int| 0 <= i < digits.len()
                    ==> s@[i] == digits[i] as char),
                None => false,
            }
        }),
{
    let mut n = match crate::bignum::big_from_dec(n_str) {
        Some(v) => v,
        None => { return None; },
    };
    let zero = big_from_u64(0);
    if big_eq(&n, &zero) {
        return Some(String::new());
    }
    let b256 = big_from_u64(256);
    let mut bytes: Vec<u8> = Vec::new();
    let ghost v0 = biguint_nat(n);
    while big_lt(&zero, &n)
        invariant
            biguint_nat(zero) == 0,
            biguint_nat(b256) == 256,
            bytes_of_nat(v0) =~= bytes_of_nat(biguint_nat(n)) + bytes@.reverse(),
        decreases biguint_nat(n),
    {
        let low_b = big_rem(&n, &b256);
        proof {
            vstd::arithmetic::div_mod::lemma_mod_division_less_than_divisor(
                biguint_nat(n) as int, 256);
        }
        let low = match big_to_u32(&low_b) {
            Some(x) => x,
            None => {
                proof {
                    assert(false);
                }
                vstd::pervasive::unreached()
            },
        };
        let ghost old_bytes = bytes@;
        bytes.push(low as u8);
        let ghost n0 = biguint_nat(n);
        n = crate::bignum::big_shr(&n, 8);
        proof {
            vstd::arithmetic::power2::lemma2_to64();
            vstd::arithmetic::div_mod::lemma_div_is_strictly_smaller(n0 as int, 256);
            assert(bytes_of_nat(n0) =~= bytes_of_nat(n0 / 256).push((n0 % 256) as u8));
            assert(bytes@.reverse() =~= seq![(n0 % 256) as u8] + old_bytes.reverse());
            assert(bytes_of_nat(v0) =~= bytes_of_nat(biguint_nat(n)) + bytes@.reverse());
        }
    }
    let mut rev: Vec<u8> = Vec::new();
    let mut i: usize = bytes.len();
    while i > 0
        invariant
            i <= bytes@.len(),
            rev@.len() == bytes@.len() - i,
            forall|k: int| 0 <= k < rev@.len() ==> rev@[k] == bytes@[bytes@.len() - 1 - k],
        decreases i,
    {
        i = i - 1;
        rev.push(bytes[i]);
    }
    proof {
        assert(rev@ =~= bytes@.reverse());
        assert(rev@ =~= bytes_of_nat(v0));
    }
    crate::util::string_from_utf8(rev)
}


/// A selected public/private exponent pair, rendered in decimal.
pub struct ExponentPair {
    pub e: String,
    pub d: String,
}

/// Selects a public exponent and derives its private counterpart for a
/// prime pair: starts from the caller's hint or the conventional value,
/// repairs it to something coprime to the totient by bounded odd steps, and
/// rejects candidates equal to their own inverse, re-deriving until the two
/// differ or the bounded attempts run out. `None` when the totient is too
/// small, no coprime exponent is found, or every attempt collides; success
/// is owed on the conventional path, where no hint is given, the default
/// exponent is coprime to the totient, and it is not its own inverse.
pub fn choose_e_d(p: &str, q: &str, use_lambda: bool, e_hint: Option<String>) -> (r: Option<
    ExponentPair>)
    requires
        is_dec_seq(p@),
        is_dec_seq(q@),
        dec_val(p@) >= 1,
        dec_val(q@) >= 1,
    ensures
        ({
            let tot = totient_of(dec_val(p@), dec_val(q@), use_lambda);
            &&& (tot <= 1 ==> r is None)
            &&& match r {
                Some(pair) => exists|ev: nat, dv: nat| {
                    &&& pair.e@ == #[trigger] dec_of(ev)
                    &&& pair.d@ == #[trigger] dec_of(dv)
                    &&& 1 < ev
                    &&& gcd_nat(ev, tot) == 1
                    &&& 0 < dv < tot
                    &&& (ev * dv) % tot == 1
                    &&& ev != dv
                },
                None => true,
            }
            &&& (tot > 1 && e_hint is None && gcd_nat(65537, tot) == 1 && !is_mod_inverse(
                65537, 65537, tot) ==> r is Some && exists|dv: nat| {
                    &&& (r->Some_0).e@ == dec_of(65537)
                    &&& (r->Some_0).d@ == #[trigger] dec_of(dv)
                    &&& is_mod_inverse(65537, dv, tot)
                })
        }),
{
    let p_b = parse_biguint(p);
    let q_b = parse_biguint(q);
    let tot = if use_lambda {
        lambda_of_pq(&p_b, &q_b)
    } else {
        phi_of_pq(&p_b, &q_b)
    };
    let ghost totv = biguint_nat(tot);
    let ghost hyp = totv > 1 && e_hint is None && gcd_nat(65537, totv) == 1 && !is_mod_inverse(
        65537, 65537, totv);
    let one = big_from_u64(1);
    if !big_lt(&one, &tot) {
        return None;
    }
    let mut e_b = match &e_hint {
        Some(s) => match crate::bignum::big_from_dec(s.as_str()) {
            Some(v) => v,
            None => big_from_u64(65537),
        },
        None => big_from_u64(65537),
    };
    let g1 = gcd_big(&e_b, &tot);
    if !(big_lt(&one, &e_b) && big_lt(&e_b, &tot) && big_eq(&g1, &one)) {
        e_b = big_from_u64(65537);
    }
    let two = big_from_u64(2);
    let g2 = gcd_big(&e_b, &tot);
    if !big_eq(&g2, &one) {
        let zero_b = big_from_u64(0);
        let parity = big_rem(&e_b, &two);
        if big_eq(&parity, &zero_b) {
            e_b = big_add(&e_b, &one);
        }
        let mut guard: u32 = 0;
        while !big_eq(&gcd_big(&e_b, &tot), &one) && guard < 5000
            invariant
                biguint_nat(one) == 1,
                biguint_nat(two) == 2,
                totv == biguint_nat(tot),
                biguint_nat(e_b) > 1,
                !hyp,
            decreases 5000 - guard,
        {
            e_b = big_add(&e_b, &two);
            guard = guard + 1;
        }
        if guard >= 5000 {
            return None;
        }
        if !big_eq(&gcd_big(&e_b, &tot), &one) {
            return None;
        }
    }
    let e_i = int_from_big(&e_b);
    let tot_i = int_from_big(&tot);
    let mut d_b = match mod_inv_big(&e_i, &tot_i) {
        Some(v) => match int_to_big(&v) {
            Some(w) => w,
            None => {
                proof {
                    assert(false);
                }
                vstd::pervasive::unreached()
            },
        },
        None => { return None; },
    };
    let mut guard2: u32 = 0;
    while big_eq(&d_b, &e_b) && guard2 < 5000
        invariant
            biguint_nat(one) == 1,
            biguint_nat(two) == 2,
            totv == biguint_nat(tot),
            totv > 1,
            biguint_nat(e_b) > 1,
            gcd_nat(biguint_nat(e_b), totv) == 1,
            biguint_nat(d_b) < totv,
            (biguint_nat(e_b) * biguint_nat(d_b)) % totv == 1nat % totv,
            bigint_int(tot_i) == totv,
            hyp ==> biguint_nat(e_b) == 65537,
            totv == totient_of(dec_val(p@), dec_val(q@), use_lambda),
            hyp == (totv > 1 && e_hint is None && gcd_nat(65537, totv) == 1
                && !is_mod_inverse(65537, 65537, totv)),
        decreases totv - biguint_nat(e_b),
    {
        let mut e_next = big_add(&e_b, &two);
        while big_lt(&e_next, &tot) && !big_eq(&gcd_big(&e_next, &tot), &one)
            invariant
                biguint_nat(one) == 1,
                biguint_nat(two) == 2,
                totv == biguint_nat(tot),
                biguint_nat(e_next) > biguint_nat(e_b),
                biguint_nat(e_next) > 1,
                biguint_nat(e_next) <= totv + 1,
            decreases totv + 2 - biguint_nat(e_next),
        {
            e_next = big_add(&e_next, &two);
        }
        if !big_lt(&e_next, &tot) {
            proof {
                if hyp {
                    assert(biguint_nat(e_b) == 65537);
                    assert(biguint_nat(d_b) < totv && (biguint_nat(e_b) * biguint_nat(d_b))
                        % totv == 1nat % totv);
                    assert(is_mod_inverse(65537, 65537, totv));
                }
            }
            return None;
        }
        e_b = e_next;
        let e_i2 = int_from_big(&e_b);
        d_b = match mod_inv_big(&e_i2, &tot_i) {
            Some(v) => match int_to_big(&v) {
                Some(w) => w,
                None => {
                    proof {
                        assert(false);
                    }
                    vstd::pervasive::unreached()
                },
            },
            None => {
                proof {
                    assert(false);
                }
                vstd::pervasive::unreached()
            },
        };
        guard2 = guard2 + 1;
    }
    if big_eq(&d_b, &e_b) {
        return None;
    }
    let ghost ev = biguint_nat(e_b);
    let ghost dv = biguint_nat(d_b);
    let pair = ExponentPair { e: biguint_to_string(&e_b), d: biguint_to_string(&d_b) };
    proof {
        vstd::arithmetic::div_mod::lemma_small_mod(1, totv);
        if dv == 0 {
            assert(ev * 0 == 0) by (nonlinear_arith);
            vstd::arithmetic::div_mod::lemma_small_mod(0, totv);
        }
        assert(pair.e@ == dec_of(ev) && pair.d@ == dec_of(dv) && 1 < ev
            && gcd_nat(ev, totv) == 1 && 0 < dv < totv && (ev * dv) % totv == 1 && ev != dv);
        if hyp {
            assert(pair.e@ == dec_of(65537) && pair.d@ == dec_of(dv)
                && is_mod_inverse(65537, dv, totv));
        }
    }
    Some(pair)
}



/// Primality in the exact sense: at least two, with no proper divisor.
pub open spec fn is_prime_nat(n: nat) -> bool {
    n >= 2 && forall|d: nat| 2 <= d < n ==> #[trigger] (n % d) != 0
}

/// A composite value has a divisor no larger than its square root.
proof fn lemma_composite_has_small_divisor(x: nat)
    requires
        x >= 2,
        !is_prime_nat(x),
    ensures
        exists|d: nat| 2 <= d && #[trigger] (x % d) == 0 && d * d <= x,
{
    let e = choose|d: nat| 2 <= d < x && #[trigger] (x % d) == 0;
    if e * e <= x {
        assert(2 <= e && x % e == 0 && e * e <= x);
    } else {
        vstd::arithmetic::div_mod::lemma_fundamental_div_mod(x as int, e as int);
        let k = (x as int / e as int) as nat;
        assert(x == e * k);
        assert(k >= 2) by (nonlinear_arith)
            requires x == e * k && e < x && e >= 2 && x >= 2;
        assert(e > k) by (nonlinear_arith)
            requires e * e > x && x == e * k && e >= 2 && k >= 1;
        assert(k * k <= x) by (nonlinear_arith)
            requires e > k && x == e * k && k >= 1;
        assert(x % k == 0) by {
            vstd::arithmetic::div_mod::lemma_mod_multiples_basic(e as int, k as int);
            assert(k * e == e * k) by (nonlinear_arith);
        }
        assert(2 <= k && x % k == 0 && k * k <= x);
    }
}

/// What the sieve has ruled out before stride `i`: a divisor below `i` no
/// larger than the square root.
pub open spec fn sieve_marked(x: int, i: int) -> bool {
    exists|d: int| 2 <= d < i && #[trigger] (x % d) == 0 && d * d <= x
}

/// Advancing the stride past a value adds exactly that value as a potential
/// divisor.
proof fn lemma_marked_step(x: int, i: int)
    requires
        i >= 2,
        x >= 0,
    ensures
        sieve_marked(x, i + 1) == (sieve_marked(x, i) || (x % i == 0 && i * i <= x)),
{
    if sieve_marked(x, i + 1) {
        let d = choose|d: int| 2 <= d < i + 1 && #[trigger] (x % d) == 0 && d * d <= x;
        if d < i {
            assert(sieve_marked(x, i));
        }
    }
    if x % i == 0 && i * i <= x {
        assert(2 <= i < i + 1 && x % i == 0 && i * i <= x);
    }
    if sieve_marked(x, i) {
        let d = choose|d: int| 2 <= d < i && #[trigger] (x % d) == 0 && d * d <= x;
        assert(2 <= d < i + 1 && x % d == 0 && d * d <= x);
    }
}

/// A composite stride adds nothing: its own small divisor already marked
/// every multiple.
proof fn lemma_marked_step_composite(x: int, i: int)
    requires
        i >= 2,
        x >= 0,
        sieve_marked(i, i),
    ensures
        sieve_marked(x, i + 1) == sieve_marked(x, i),
{
    lemma_marked_step(x, i);
    if x % i == 0 && i * i <= x {
        let e = choose|d: int| 2 <= d < i && #[trigger] (i % d) == 0 && d * d <= i;
        vstd::arithmetic::div_mod::lemma_fundamental_div_mod(x, i);
        vstd::arithmetic::div_mod::lemma_fundamental_div_mod(i, e);
        let k = x / i;
        let mm = i / e;
        assert(x == i * k && i == e * mm);
        assert(x == e * (mm * k)) by (nonlinear_arith)
            requires x == i * k && i == e * mm;
        assert(x % e == 0) by {
            vstd::arithmetic::div_mod::lemma_mod_multiples_basic(mm * k, e);
            assert((mm * k) * e == e * (mm * k)) by (nonlinear_arith);
        }
        assert(i <= i * i) by (nonlinear_arith)
            requires i >= 2;
        assert(e * e <= i <= x);
        assert(2 <= e < i && x % e == 0 && e * e <= x);
        assert(sieve_marked(x, i));
    }
}

/// The sieve of Eratosthenes up to two hundred: cell `x` says whether `x`
/// is prime.
fn sieve_small() -> (r: Vec<bool>)
    ensures
        r@.len() == 201,
        forall|x: int| 0 <= x < 201 ==> r@[x] == is_prime_nat(x as nat),
{
    let limit: u32 = 200;
    let mut is_p: Vec<bool> = Vec::new();
    let mut f: usize = 0;
    while f < 201
        invariant
            is_p@.len() == f,
            f <= 201,
            forall|x: int| 0 <= x < f ==> (#[trigger] is_p@[x]) == (x >= 2),
        decreases 201 - f,
    {
        if f < 2 {
            is_p.push(false);
        } else {
            is_p.push(true);
        }
        f = f + 1;
    }
    let mut i: u32 = 2;
    while i <= 14
        invariant
            limit == 200,
            2 <= i,
            i <= 15,
            is_p@.len() == 201,
            forall|x: int| 0 <= x < 201 ==> (#[trigger] is_p@[x]) == (x >= 2 && !sieve_marked(x, i as int)),
        decreases 15 - i,
    {
        if is_p[i as usize] {
            proof {
                assert(i * i <= 196) by (nonlinear_arith)
                    requires 2 <= i <= 14;
            }
            let mut j: u32 = i * i;
            proof {
                vstd::arithmetic::div_mod::lemma_mod_multiples_basic(i as int, i as int);
                assert((i as int) * (i as int) % (i as int) == 0);
                assert forall|x: int| 0 <= x < 201 implies is_p@[x] == (x >= 2 && !sieve_marked(
                    x, i as int) && !(x % (i as int) == 0 && i * i <= x && x < i * i)) by {
                    assert(is_p@[x] == (x >= 2 && !sieve_marked(x, i as int)));
                }
            }
            while j <= limit
                invariant
                    limit == 200,
                    2 <= i <= 14,
                    i * i <= j,
                    j % i == 0,
                    j <= limit + i,
                    is_p@.len() == 201,
                    forall|x: int| 0 <= x < 201 ==> (#[trigger] is_p@[x]) == (x >= 2
                        && !sieve_marked(x, i as int) && !(x % (i as int) == 0 && i * i <= x
                        && x < j)),
                decreases limit + i - j,
            {
                let ghost jold = j as int;
                let ghost snap = is_p@;
                is_p[j as usize] = false;
                proof {
                    assert(is_p@ =~= snap.update(jold, false));
                    vstd::arithmetic::div_mod::lemma_mod_add_multiples_vanish(j as int, i as int);
                    assert((j + i) % (i as int) == 0);
                    assert forall|x: int| 0 <= x < 201 implies is_p@[x] == (x >= 2
                        && !sieve_marked(x, i as int) && !(x % (i as int) == 0 && i * i <= x
                        && x < jold + i)) by {
                        if x != jold && x % (i as int) == 0 && i * i <= x && jold <= x
                            && x < jold + i {
                            vstd::arithmetic::div_mod::lemma_sub_mod_noop(x, jold, i as int);
                            vstd::arithmetic::div_mod::lemma_small_mod(0nat, i as nat);
                            assert((x - jold) % (i as int) == 0);
                            vstd::arithmetic::div_mod::lemma_small_mod((x - jold) as nat,
                                i as nat);
                        }
                        if x == jold {
                            vstd::arithmetic::div_mod::lemma_mod_self_0(i as int);
                        }
                    }
                }
                j = j + i;
            }
            proof {
                assert forall|x: int| 0 <= x < 201 implies is_p@[x] == (x >= 2 && !sieve_marked(
                    x, i as int + 1)) by {
                    lemma_marked_step(x, i as int);
                    assert(is_p@[x] == (x >= 2 && !sieve_marked(x, i as int) && !(x % (
                        i as int) == 0 && i * i <= x && x < j)));
                }
            }
        } else {
            proof {
                assert(sieve_marked(i as int, i as int));
                assert forall|x: int| 0 <= x < 201 implies is_p@[x] == (x >= 2 && !sieve_marked(
                    x, i as int + 1)) by {
                    lemma_marked_step_composite(x, i as int);
                    assert(is_p@[x] == (x >= 2 && !sieve_marked(x, i as int)));
                }
            }
        }
        i = i + 1;
    }
    proof {
        assert(i == 15);
        assert((i as int) * (i as int) == 225) by (nonlinear_arith)
            requires i == 15;
        assert forall|x: int| 0 <= x < 201 implies is_p@[x] == is_prime_nat(x as nat) by {
            assert(is_p@[x] == (x >= 2 && !sieve_marked(x, i as int)));
            if x >= 2 {
                if is_prime_nat(x as nat) {
                    if sieve_marked(x, i as int) {
                        let d = choose|d: int| 2 <= d < i && #[trigger] (x % d) == 0
                            && d * d <= x;
                        assert(d < x) by (nonlinear_arith)
                            requires d >= 2 && d * d <= x;
                        assert((x as nat) % (d as nat) != 0);
                    }
                } else {
                    lemma_composite_has_small_divisor(x as nat);
                    let d = choose|d: nat| 2 <= d && #[trigger] ((x as nat) % d) == 0
                        && d * d <= x as nat;
                    assert(d < i) by (nonlinear_arith)
                        requires d * d <= x && x <= 200 && (i as int) * (i as int) > 200
                            && d >= 0 && i >= 2;
                    assert(2 <= (d as int) && (d as int) < i && x % (d as int) == 0
                        && (d as int) * (d as int) <= x);
                    assert(sieve_marked(x, i as int));
                }
            }
        }
    }
    is_p
}



/// The ascending list of all primes up to two hundred.
fn small_primes_list() -> (r: Vec<u32>)
    ensures
        forall|k: int| 0 <= k < r@.len() ==> is_prime_nat((#[trigger] r@[k]) as nat)
            && 2 <= r@[k] <= 200,
        forall|k1: int, k2: int| 0 <= k1 < k2 < r@.len() ==> #[trigger] r@[k1] < #[trigger] r@[k2],
        forall|v: nat| 2 <= v <= 200 && #[trigger] is_prime_nat(v) ==> exists|k: int| 0 <= k
            < r@.len() && r@[k] == v,
{
    let is_p = sieve_small();
    let mut primes: Vec<u32> = Vec::new();
    let mut v: u32 = 2;
    while v <= 200
        invariant
            2 <= v <= 201,
            is_p@.len() == 201,
            forall|x: int| 0 <= x < 201 ==> is_p@[x] == is_prime_nat(x as nat),
            forall|k: int| 0 <= k < primes@.len() ==> is_prime_nat((#[trigger] primes@[k]) as nat)
                && 2 <= primes@[k] < v,
            forall|k1: int, k2: int| 0 <= k1 < k2 < primes@.len()
                ==> #[trigger] primes@[k1] < #[trigger] primes@[k2],
            forall|u: nat| 2 <= u < v && #[trigger] is_prime_nat(u) ==> exists|k: int| 0 <= k
                < primes@.len() && primes@[k] == u,
        decreases 201 - v,
    {
        let ghost oldp = primes@;
        if is_p[v as usize] {
            primes.push(v);
        }
        proof {
            assert forall|u: nat| 2 <= u < v + 1 && #[trigger] is_prime_nat(u) implies exists|
                k: int| 0 <= k < primes@.len() && primes@[k] == u by {
                if u == v as nat {
                    assert(is_prime_nat(v as nat));
                    assert(primes@[primes@.len() - 1] == v);
                } else {
                    let k = choose|k: int| 0 <= k < oldp.len() && oldp[k] == u;
                    assert(primes@[k] == u);
                }
            }
        }
        v = v + 1;
    }
    primes
}

/// The value a picked product should lie closest to: the midpoint of the
/// window, or the lower bound itself when no upper bound is set.
pub open spec fn window_target(lo: nat, hi: nat) -> nat {
    if hi == 0 {
        lo
    } else {
        (lo + hi) / 2
    }
}

/// Absolute distance between two natural numbers.
pub open spec fn dist_to(x: nat, t: nat) -> nat {
    if x >= t {
        (x - t) as nat
    } else {
        (t - x) as nat
    }
}

/// The product of a pair lies in the requested window: at least the lower
/// bound, and at most the upper bound when one is set.
pub open spec fn product_in_window(p: nat, q: nat, lo: nat, hi: nat) -> bool {
    lo <= p * q && (hi > 0 ==> p * q <= hi)
}

/// Scans ascending pairs of distinct primes up to two hundred for a product
/// inside `[n_min, n_max]` (the upper bound ignored when zero), preferring
/// the product closest to the midpoint of the window; `None` exactly when no
/// such pair exists.
pub fn pick_small_primes_in_range_internal(n_min: &BigUint, n_max: &BigUint) -> (r: Option<(
    BigUint, BigUint, BigUint)>)
    ensures
        ({
            let lo = biguint_nat(*n_min);
            let hi = biguint_nat(*n_max);
            match r {
                Some(t) => {
                    let p = biguint_nat(t.0);
                    let q = biguint_nat(t.1);
                    let n = biguint_nat(t.2);
                    &&& is_prime_nat(p)
                    &&& is_prime_nat(q)
                    &&& p < q <= 200
                    &&& n == p * q
                    &&& product_in_window(p, q, lo, hi)
                    &&& forall|p2: nat, q2: nat| is_prime_nat(p2) && is_prime_nat(q2)
                        && p2 < q2 <= 200 && #[trigger] product_in_window(p2, q2, lo, hi)
                        ==> dist_to(n, window_target(lo, hi)) <= dist_to(p2 * q2,
                            window_target(lo, hi))
                },
                None => forall|p: nat, q: nat| is_prime_nat(p) && is_prime_nat(q) && p < q <= 200
                    ==> !(#[trigger] product_in_window(p, q, lo, hi)),
            }
        }),
{
    let ghost lo = biguint_nat(*n_min);
    let ghost hi = biguint_nat(*n_max);
    let primes = small_primes_list();
    let zero = big_from_u64(0);
    let hi_is_zero = big_eq(n_max, &zero);
    let target = if hi_is_zero {
        crate::bignum::big_clone(n_min)
    } else {
        crate::bignum::big_shr(&big_add(n_min, n_max), 1)
    };
    proof {
        vstd::arithmetic::power2::lemma2_to64();
        assert(biguint_nat(target) == window_target(lo, hi));
    }
    let ghost tv = window_target(lo, hi);
    let mut best: Option<(u32, u32, u32, BigUint)> = None;
    let mut ai: usize = 0;
    while ai < primes.len()
        invariant
            lo == biguint_nat(*n_min),
            hi == biguint_nat(*n_max),
            hi_is_zero == (hi == 0),
            ai <= primes@.len(),
            forall|k: int| 0 <= k < primes@.len() ==> is_prime_nat((#[trigger] primes@[k]) as nat)
                && 2 <= primes@[k] <= 200,
            forall|k1: int, k2: int| 0 <= k1 < k2 < primes@.len()
                ==> #[trigger] primes@[k1] < #[trigger] primes@[k2],
            forall|v: nat| 2 <= v <= 200 && #[trigger] is_prime_nat(v) ==> exists|k: int| 0 <= k
                < primes@.len() && primes@[k] == v,
            tv == window_target(lo, hi),
            biguint_nat(target) == tv,
            match best {
                Some(t) => {
                    &&& is_prime_nat(t.0 as nat)
                    &&& is_prime_nat(t.1 as nat)
                    &&& t.0 < t.1 <= 200
                    &&& t.2 == t.0 * t.1
                    &&& product_in_window(t.0 as nat, t.1 as nat, lo, hi)
                    &&& biguint_nat(t.3) == dist_to(t.2 as nat, tv)
                },
                None => true,
            },
            forall|k1: int, k2: int| 0 <= k1 < ai && k1 < k2 < primes@.len()
                && #[trigger] product_in_window(primes@[k1] as nat, primes@[k2] as nat, lo, hi)
                ==> (best is Some && dist_to(best->Some_0.2 as nat, tv)
                    <= dist_to((primes@[k1] * primes@[k2]) as nat, tv)),
        decreases primes@.len() - ai,
    {
        let p = primes[ai];
        let mut bi: usize = ai + 1;
        let mut stop = false;
        while bi < primes.len() && !stop
            invariant
                lo == biguint_nat(*n_min),
                hi == biguint_nat(*n_max),
                hi_is_zero == (hi == 0),
                ai < bi <= primes@.len(),
                p == primes@[ai as int],
                forall|k: int| 0 <= k < primes@.len() ==> is_prime_nat((
                    #[trigger] primes@[k]) as nat) && 2 <= primes@[k] <= 200,
                forall|k1: int, k2: int| 0 <= k1 < k2 < primes@.len()
                    ==> #[trigger] primes@[k1] < #[trigger] primes@[k2],
                tv == window_target(lo, hi),
                biguint_nat(target) == tv,
                match best {
                    Some(t) => {
                        &&& is_prime_nat(t.0 as nat)
                        &&& is_prime_nat(t.1 as nat)
                        &&& t.0 < t.1 <= 200
                        &&& t.2 == t.0 * t.1
                        &&& product_in_window(t.0 as nat, t.1 as nat, lo, hi)
                        &&& biguint_nat(t.3) == dist_to(t.2 as nat, tv)
                    },
                    None => true,
                },
                forall|k1: int, k2: int| 0 <= k1 < ai && k1 < k2 < primes@.len()
                    && #[trigger] product_in_window(primes@[k1] as nat, primes@[k2] as nat, lo,
                        hi)
                    ==> (best is Some && dist_to(best->Some_0.2 as nat, tv)
                        <= dist_to((primes@[k1] * primes@[k2]) as nat, tv)),
                forall|k2: int| ai < k2 < bi && #[trigger] product_in_window(
                    primes@[ai as int] as nat, primes@[k2] as nat, lo, hi)
                    ==> (best is Some && dist_to(best->Some_0.2 as nat, tv)
                        <= dist_to((primes@[ai as int] * primes@[k2]) as nat, tv)),
                stop ==> forall|k2: int| bi <= k2 < primes@.len()
                    ==> !(#[trigger] product_in_window(primes@[ai as int] as nat,
                        primes@[k2] as nat, lo, hi)),
            decreases primes@.len() - bi + (if stop { 0int } else { 1 }),
        {
            let q = primes[bi];
            proof {
                assert(p * q <= 40000) by (nonlinear_arith)
                    requires p <= 200 && q <= 200;
                assert(p * q >= 1) by (nonlinear_arith)
                    requires p >= 2 && q >= 2;
            }
            let prod: u32 = p * q;
            let prod_b = big_from_u64(prod as u64);
            if big_lt(&prod_b, n_min) {
                bi = bi + 1;
            } else if !hi_is_zero && big_lt(n_max, &prod_b) {
                stop = true;
                proof {
                    assert forall|k2: int| bi <= k2 < primes@.len() implies !(
                        #[trigger] product_in_window(primes@[ai as int] as nat,
                        primes@[k2] as nat, lo, hi)) by {
                        if k2 > bi {
                            assert(primes@[bi as int] < primes@[k2]);
                        }
                        assert((p as nat) * (primes@[k2] as nat) >= (p as nat) * (q as nat))
                            by (nonlinear_arith)
                            requires primes@[k2] >= q && p >= 0;
                    }
                }
            } else {
                let diff = if big_lt(&prod_b, &target) {
                    big_sub(&target, &prod_b)
                } else {
                    big_sub(&prod_b, &target)
                };
                let replace = match best {
                    None => true,
                    Some((_, _, _, ref bd)) => big_lt(&diff, bd),
                };
                if replace {
                    best = Some((p, q, prod, diff));
                }
                proof {
                    assert(product_in_window(p as nat, q as nat, lo, hi));
                }
                bi = bi + 1;
            }
        }
        proof {
            if best is None {
                assert forall|k1: int, k2: int| 0 <= k1 < ai + 1 && k1 < k2 < primes@.len()
                    implies !(#[trigger] product_in_window(primes@[k1] as nat,
                    primes@[k2] as nat, lo, hi)) by {
                    if k1 == ai {
                        if k2 >= bi {
                            assert(stop || bi == primes@.len());
                        }
                    }
                }
            }
        }
        ai = ai + 1;
    }
    match best {
        Some((bp, bq, bn, _)) => {
            let rp = big_from_u64(bp as u64);
            let rq = big_from_u64(bq as u64);
            let rn = big_from_u64(bn as u64);
            Some((rp, rq, rn))
        },
        None => {
            proof {
                assert forall|p: nat, q: nat| is_prime_nat(p) && is_prime_nat(q) && p < q <= 200
                    implies !(#[trigger] product_in_window(p, q, lo, hi)) by {
                    if product_in_window(p, q, lo, hi) {
                        assert(2 <= p);
                        let k1 = choose|k: int| 0 <= k < primes@.len() && primes@[k] == p;
                        let k2 = choose|k: int| 0 <= k < primes@.len() && primes@[k] == q;
                        assert(k1 < k2) by {
                            if k1 > k2 {
                                assert(primes@[k2] < primes@[k1]);
                            }
                        }
                        assert(!product_in_window(primes@[k1] as nat, primes@[k2] as nat, lo,
                            hi));
                    }
                }
            }
            None
        },
    }
}



/// A picked prime pair and its product, rendered in decimal.
pub struct PrimeProduct {
    pub p: String,
    pub q: String,
    pub n: String,
}

/// Deterministic scan for a pair of distinct primes up to two hundred whose
/// product lies in `[n_min, n_max]` (upper bound ignored when zero),
/// rendered in decimal. A string that does not parse counts as zero.
pub fn pick_small_primes_in_range(n_min: &str, n_max: &str) -> (r: Option<PrimeProduct>)
    ensures
        is_dec_seq(n_min@) && is_dec_seq(n_max@) ==> match r {
            Some(pp) => exists|p: nat, q: nat| {
                &&& pp.p@ == #[trigger] dec_of(p)
                &&& pp.q@ == #[trigger] dec_of(q)
                &&& pp.n@ == dec_of(p * q)
                &&& is_prime_nat(p)
                &&& is_prime_nat(q)
                &&& p < q <= 200
                &&& product_in_window(p, q, dec_val(n_min@), dec_val(n_max@))
            },
            None => forall|p: nat, q: nat| is_prime_nat(p) && is_prime_nat(q) && p < q <= 200
                ==> !(#[trigger] product_in_window(p, q, dec_val(n_min@), dec_val(n_max@))),
        },
{
    let lo_b = match crate::bignum::big_from_dec(n_min) {
        Some(v) => v,
        None => big_from_u64(0),
    };
    let hi_b = match crate::bignum::big_from_dec(n_max) {
        Some(v) => v,
        None => big_from_u64(0),
    };
    match pick_small_primes_in_range_internal(&lo_b, &hi_b) {
        Some(t) => {
            let (p, q, n) = t;
            Some(PrimeProduct {
                p: biguint_to_string(&p),
                q: biguint_to_string(&q),
                n: biguint_to_string(&n),
            })
        },
        None => None,
    }
}


} // verus!
