//! Diffie-Hellman engine: safe-prime and generator search by rejection
//! sampling, and the two-party exchange simulation whose four computations
//! are each recorded as one human-readable step. The two shared secrets are
//! proved equal for every choice of parameters.

use vstd::prelude::*;
use num_bigint::BigUint;
use vstd::arithmetic::power::{pow, lemma_pow_mod_noop, lemma_pow_multiplies};
use vstd::arithmetic::power2::{lemma2_to64, pow2};
use vstd::arithmetic::div_mod::lemma_fundamental_div_mod_converse;
use vstd::string::{StrSliceExecFns, StringExecFns};
use crate::bignum::{
    big_add, big_eq, big_from_u64, big_rem, big_shl, big_shr, big_sub, biguint_nat, dec_of,
};
use crate::number_theory::{
    gen_prime_bits, is_probable_prime, mod_pow_big, mod_pow_spec, spec_probable_prime, RETRY_LIMIT,
};
use crate::util::{biguint_to_string, rng_next_u32, seeded_rng};
use rand_chacha::ChaCha20Rng;

verus! {

/// One recorded computation of the exchange simulation.
pub struct DiffieHellmanStep {
    pub step: String,
    pub description: String,
    pub value: String,
    pub computation: String,
}

/// The full exchange record: parameters, both private and public values,
/// both shared secrets, and the four steps in their fixed order.
pub struct DiffieHellmanExchange {
    pub p: String,
    pub g: String,
    pub alice_private: String,
    pub bob_private: String,
    pub alice_public: String,
    pub bob_public: String,
    pub alice_shared: String,
    pub bob_shared: String,
    pub steps: Vec<DiffieHellmanStep>,
}

/// Both parties of an exchange compute the same shared secret, whatever the
/// parameters: raising the other party's public value to one's own private
/// exponent commutes.
pub proof fn lemma_dh_shared_agree(p: nat, g: nat, a: nat, b: nat)
    ensures
        mod_pow_spec(mod_pow_spec(g, a, p), b, p) == mod_pow_spec(mod_pow_spec(g, b, p), a, p),
{
    if p > 0 {
        let gi = g as int;
        let pi = p as int;
        lemma_pow_mod_noop(pow(gi, a), b, pi);
        lemma_pow_mod_noop(pow(gi, b), a, pi);
        lemma_pow_multiplies(gi, a, b);
        lemma_pow_multiplies(gi, b, a);
        assert(a * b == b * a);
    }
}

/// The rendered formula `lhs` `base`^`e` mod `m`.
pub open spec fn dh_formula(lhs: Seq<char>, base: nat, e: nat, m: nat) -> Seq<char> {
    lhs + dec_of(base) + "^"@ + dec_of(e) + " mod "@ + dec_of(m)
}

/// Builds the rendered formula `lhs` `base`^`e` mod `m`.
fn formula(lhs: &str, base: &BigUint, e: &BigUint, m: &BigUint) -> (r: String)
    ensures
        r@ == dh_formula(lhs@, biguint_nat(*base), biguint_nat(*e), biguint_nat(*m)),
{
    let mut s = String::from_str(lhs);
    s.append(biguint_to_string(base).as_str());
    s.append("^");
    s.append(biguint_to_string(e).as_str());
    s.append(" mod ");
    s.append(biguint_to_string(m).as_str());
    s
}

/// Draws primes of one bit less than requested until doubling one and adding
/// one yields a prime as well; `None` once the retry budget is exhausted.
fn search_safe_prime(bits: u32, rng: &mut ChaCha20Rng) -> (r: Option<BigUint>)
    requires
        bits >= 3,
    ensures
        match r {
            Some(p) => {
                let pv = biguint_nat(p);
                &&& spec_probable_prime(pv)
                &&& pv % 2 == 1
                &&& pv >= 5
                &&& spec_probable_prime((pv - 1) as nat / 2)
                &&& pow2((bits - 1) as nat) < pv < pow2(bits as nat)
            },
            None => true,
        },
{
    let one = big_from_u64(1);
    proof {
        lemma2_to64();
    }
    let mut tries: u32 = 0;
    while tries < RETRY_LIMIT
        invariant
            bits >= 3,
            biguint_nat(one) == 1,
        decreases RETRY_LIMIT - tries,
    {
        let q = match gen_prime_bits(bits - 1, rng) {
            Some(v) => v,
            None => { return None; },
        };
        let p_cand = big_add(&big_shl(&q, 1), &one);
        proof {
            lemma2_to64();
            let qv = biguint_nat(q);
            assert(biguint_nat(p_cand) == 2 * qv + 1) by {
                assert(qv * pow2(1) == 2 * qv) by (nonlinear_arith)
                    requires pow2(1) == 2nat;
            }
            lemma_fundamental_div_mod_converse((2 * qv + 1) as int, 2, qv as int, 1);
            assert(pow2((bits - 1) as nat) == 2 * pow2((bits - 2) as nat)) by {
                vstd::arithmetic::power2::lemma_pow2_adds((bits - 2) as nat, 1);
            }
            assert(pow2(bits as nat) == 2 * pow2((bits - 1) as nat)) by {
                vstd::arithmetic::power2::lemma_pow2_adds((bits - 1) as nat, 1);
            }
            vstd::arithmetic::power2::lemma_pow2_pos((bits - 2) as nat);
            assert(qv >= 2) by {
                assert(pow2((bits - 2) as nat) >= pow2(1)) by {
                    if bits == 3 {
                    } else {
                        vstd::arithmetic::power2::lemma_pow2_strictly_increases(1, (bits - 2) as nat);
                    }
                }
            }
        }
        if is_probable_prime(&p_cand) {
            return Some(p_cand);
        }
        tries = tries + 1;
    }
    None
}

/// Searches for a safe prime `p = 2q + 1` with `q` prime of one bit less
/// than requested, then for a generator candidate `g` outside the order-two
/// subgroup, each by bounded rejection sampling; `None` on exhaustion.
pub fn generate_diffie_hellman_params(bits: u32) -> (r: Option<(BigUint, BigUint)>)
    requires
        bits >= 3,
    ensures
        match r {
            Some(pg) => {
                let p = biguint_nat(pg.0);
                let g = biguint_nat(pg.1);
                &&& spec_probable_prime(p)
                &&& p % 2 == 1
                &&& p >= 5
                &&& spec_probable_prime((p - 1) as nat / 2)
                &&& pow2((bits - 1) as nat) < p < pow2(bits as nat)
                &&& 2 <= g <= p - 2
                &&& mod_pow_spec(g, (p - 1) as nat / 2, p) != 1
            },
            None => true,
        },
{
    let mut rng = seeded_rng(None);
    let one = big_from_u64(1);
    let two = big_from_u64(2);
    let p = match search_safe_prime(bits, &mut rng) {
        Some(v) => v,
        None => { return None; },
    };
    let p_minus_one = big_sub(&p, &one);
    let q_exp = big_shr(&p_minus_one, 1);
    proof {
        lemma2_to64();
    }
    let three = big_from_u64(3);
    let p_minus_three = big_sub(&p, &three);
    let mut tries_g: u32 = 0;
    while tries_g < RETRY_LIMIT
        invariant
            biguint_nat(two) == 2,
            spec_probable_prime(biguint_nat(p)),
            biguint_nat(p) % 2 == 1,
            biguint_nat(p) >= 5,
            spec_probable_prime((biguint_nat(p) - 1) as nat / 2),
            pow2((bits - 1) as nat) < biguint_nat(p) < pow2(bits as nat),
            biguint_nat(p_minus_three) == biguint_nat(p) - 3,
            biguint_nat(q_exp) == (biguint_nat(p) - 1) as nat / 2,
        decreases RETRY_LIMIT - tries_g,
    {
        let mut rng_g = seeded_rng(None);
        let random_val = big_from_u64(rng_next_u32(&mut rng_g) as u64);
        let candidate = big_add(&two, &big_rem(&random_val, &p_minus_three));
        let probe = mod_pow_big(&candidate, &q_exp, &p);
        let one_again = big_from_u64(1);
        if !big_eq(&probe, &one_again) {
            return Some((p, candidate));
        }
        tries_g = tries_g + 1;
    }
    None
}

/// Simulates a two-party exchange for given parameters and private
/// exponents: Alice's and Bob's public values, then both shared secrets, in
/// that fixed step order. The two shared secrets are equal, whatever the
/// inputs.
pub fn diffie_hellman_exchange_internal(p: &BigUint, g: &BigUint, a: &BigUint, b: &BigUint) -> (r:
    DiffieHellmanExchange)
    ensures
        r.p@ == dec_of(biguint_nat(*p)),
        r.g@ == dec_of(biguint_nat(*g)),
        r.alice_private@ == dec_of(biguint_nat(*a)),
        r.bob_private@ == dec_of(biguint_nat(*b)),
        r.alice_public@ == dec_of(mod_pow_spec(biguint_nat(*g), biguint_nat(*a), biguint_nat(*p))),
        r.bob_public@ == dec_of(mod_pow_spec(biguint_nat(*g), biguint_nat(*b), biguint_nat(*p))),
        r.alice_shared@ == dec_of(mod_pow_spec(mod_pow_spec(biguint_nat(*g), biguint_nat(*b),
            biguint_nat(*p)), biguint_nat(*a), biguint_nat(*p))),
        r.bob_shared@ == dec_of(mod_pow_spec(mod_pow_spec(biguint_nat(*g), biguint_nat(*a),
            biguint_nat(*p)), biguint_nat(*b), biguint_nat(*p))),
        r.alice_shared@ == r.bob_shared@,
        r.steps@.len() == 4,
        r.steps@[0].value@ == r.alice_public@,
        r.steps@[1].value@ == r.bob_public@,
        r.steps@[2].value@ == r.alice_shared@,
        r.steps@[3].value@ == r.bob_shared@,
        r.steps@[0].step@ == "1"@ && r.steps@[1].step@ == "2"@ && r.steps@[2].step@ == "3"@
            && r.steps@[3].step@ == "4"@,
        r.steps@[0].computation@ == dh_formula("A = g^a mod p = "@, biguint_nat(*g),
            biguint_nat(*a), biguint_nat(*p)),
        r.steps@[1].computation@ == dh_formula("B = g^b mod p = "@, biguint_nat(*g),
            biguint_nat(*b), biguint_nat(*p)),
        r.steps@[2].computation@ == dh_formula("K = B^a mod p = "@, mod_pow_spec(
            biguint_nat(*g), biguint_nat(*b), biguint_nat(*p)), biguint_nat(*a),
            biguint_nat(*p)),
        r.steps@[3].computation@ == dh_formula("K = A^b mod p = "@, mod_pow_spec(
            biguint_nat(*g), biguint_nat(*a), biguint_nat(*p)), biguint_nat(*b),
            biguint_nat(*p)),
{
    let mut steps: Vec<DiffieHellmanStep> = Vec::new();

    let alice_public = mod_pow_big(g, a, p);
    steps.push(DiffieHellmanStep {
        step: String::from_str("1"),
        description: String::from_str("Alice computes her public key"),
        value: biguint_to_string(&alice_public),
        computation: formula("A = g^a mod p = ", g, a, p),
    });

    let bob_public = mod_pow_big(g, b, p);
    steps.push(DiffieHellmanStep {
        step: String::from_str("2"),
        description: String::from_str("Bob computes his public key"),
        value: biguint_to_string(&bob_public),
        computation: formula("B = g^b mod p = ", g, b, p),
    });

    let alice_shared = mod_pow_big(&bob_public, a, p);
    steps.push(DiffieHellmanStep {
        step: String::from_str("3"),
        description: String::from_str("Alice computes shared secret using Bob's public key"),
        value: biguint_to_string(&alice_shared),
        computation: formula("K = B^a mod p = ", &bob_public, a, p),
    });

    let bob_shared = mod_pow_big(&alice_public, b, p);
    steps.push(DiffieHellmanStep {
        step: String::from_str("4"),
        description: String::from_str("Bob computes shared secret using Alice's public key"),
        value: biguint_to_string(&bob_shared),
        computation: formula("K = A^b mod p = ", &alice_public, b, p),
    });

    proof {
        lemma_dh_shared_agree(biguint_nat(*p), biguint_nat(*g), biguint_nat(*a), biguint_nat(*b));
    }
    DiffieHellmanExchange {
        p: biguint_to_string(p),
        g: biguint_to_string(g),
        alice_private: biguint_to_string(a),
        bob_private: biguint_to_string(b),
        alice_public: biguint_to_string(&alice_public),
        bob_public: biguint_to_string(&bob_public),
        alice_shared: biguint_to_string(&alice_shared),
        bob_shared: biguint_to_string(&bob_shared),
        steps,
    }
}

} // verus!
