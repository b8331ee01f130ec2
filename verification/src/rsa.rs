//! RSA key derivation: two independent random primes of half the requested
//! bit length, the conventional public exponent with its odd fallback, and
//! the private exponent as the modular inverse of the public one modulo
//! Euler's totient of the modulus.

use vstd::prelude::*;
use vstd::arithmetic::power2::pow2;
use num_bigint::BigUint;
use crate::bignum::{big_eq, big_from_u64, big_mul, biguint_nat, int_from_big, int_to_big};
use crate::number_theory::{
    gcd_nat, gen_prime_bits, gcd_big, mod_inv_big, phi_of_pq, spec_probable_prime, RETRY_LIMIT,
};
use crate::util::seeded_rng;

verus! {

/// An RSA keypair: two distinct probable primes, their product, and a pair
/// of exponents inverse to one another modulo Euler's totient.
#[derive(Clone, Debug)]
pub struct KeyPair {
    pub p: BigUint,
    pub q: BigUint,
    pub n: BigUint,
    pub e: BigUint,
    pub d: BigUint,
}

/// The invariant a derived keypair satisfies: both factors pass the
/// probabilistic primality test and differ, the modulus is their product,
/// the public exponent is the conventional value or its fallback and is
/// coprime to the totient, and the private exponent is the unique inverse of
/// the public one in `[0, totient)`.
pub open spec fn keypair_wf(kp: KeyPair) -> bool {
    let p = biguint_nat(kp.p);
    let q = biguint_nat(kp.q);
    let phi = ((p - 1) * (q - 1)) as int;
    &&& spec_probable_prime(p)
    &&& spec_probable_prime(q)
    &&& p != q
    &&& biguint_nat(kp.n) == p * q
    &&& (biguint_nat(kp.e) == 65537 || biguint_nat(kp.e) == 3)
    &&& gcd_nat(biguint_nat(kp.e), phi as nat) == 1
    &&& biguint_nat(kp.d) < phi
    &&& ((biguint_nat(kp.e) * biguint_nat(kp.d)) as int) % phi == 1int % phi
}

/// Derives an RSA keypair of roughly the requested bit length: `None` when a
/// bounded random search runs out of candidates, or when neither exponent
/// candidate is coprime to the totient. Inversion failure after the fallback
/// is reported as `None` rather than treated as unreachable: the fallback
/// exponent carries no coprimality guarantee, and this library's functions
/// do not panic.
pub fn generate_rsa_keypair_internal(bits: u32, seed: Option<u64>) -> (r: Option<KeyPair>)
    requires
        bits >= 4,
    ensures
        match r {
            Some(kp) => {
                &&& keypair_wf(kp)
                &&& pow2((bits / 2 - 1) as nat) <= biguint_nat(kp.p) < pow2((bits / 2) as nat)
                &&& pow2((bits / 2 - 1) as nat) <= biguint_nat(kp.q) < pow2((bits / 2) as nat)
                &&& biguint_nat(kp.p) % 2 == 1
                &&& biguint_nat(kp.q) % 2 == 1
                &&& biguint_nat(kp.e) == if gcd_nat(65537, ((biguint_nat(kp.p) - 1)
                    * (biguint_nat(kp.q) - 1)) as nat) == 1 {
                    65537nat
                } else {
                    3nat
                }
            },
            None => true,
        },
{
    let mut rng = seeded_rng(seed);
    let p = match gen_prime_bits(bits / 2, &mut rng) {
        Some(v) => v,
        None => { return None; },
    };
    let mut q = match gen_prime_bits(bits / 2, &mut rng) {
        Some(v) => v,
        None => { return None; },
    };
    let mut tries: u32 = 0;
    while big_eq(&q, &p) && tries < RETRY_LIMIT
        invariant
            bits >= 4,
            spec_probable_prime(biguint_nat(q)),
            pow2((bits / 2 - 1) as nat) <= biguint_nat(q) < pow2((bits / 2) as nat),
            biguint_nat(q) % 2 == 1,
        decreases RETRY_LIMIT - tries,
    {
        q = match gen_prime_bits(bits / 2, &mut rng) {
            Some(v) => v,
            None => { return None; },
        };
        tries = tries + 1;
    }
    if big_eq(&q, &p) {
        return None;
    }
    let n = big_mul(&p, &q);
    let phi = phi_of_pq(&p, &q);
    proof {
        let pv = biguint_nat(p);
        let qv = biguint_nat(q);
        assert((pv - 1) * (qv - 1) >= 1) by (nonlinear_arith)
            requires pv >= 2 && qv >= 2;
    }
    let e = big_from_u64(65537);
    let one = big_from_u64(1);
    let g = gcd_big(&e, &phi);
    let e_final = if big_eq(&g, &one) {
        e
    } else {
        big_from_u64(3)
    };
    let e_i = int_from_big(&e_final);
    let phi_i = int_from_big(&phi);
    let d_i = match mod_inv_big(&e_i, &phi_i) {
        Some(v) => v,
        None => { return None; },
    };
    let d = match int_to_big(&d_i) {
        Some(v) => v,
        None => {
            proof {
                assert(false);
            }
            vstd::pervasive::unreached()
        },
    };
    Some(KeyPair { p, q, n, e: e_final, d })
}

} // verus!
