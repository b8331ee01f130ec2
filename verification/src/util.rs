//! Decimal-string conversions for arbitrary-precision integers, and the
//! random-source handle that every generation call threads explicitly: a
//! stream cipher generator built from a caller-supplied seed (reproducible
//! traces) or from ambient entropy.

use vstd::prelude::*;
use num_bigint::BigUint;
use rand_chacha::ChaCha20Rng;
use crate::bignum::{big_from_dec, big_to_dec, biguint_nat, dec_digit, dec_of, dec_val, is_dec_seq};
use vstd::string::StringExecFns;
use vstd::arithmetic::power2::pow2;

verus! {

#[verifier::external_type_specification]
#[verifier::external_body]
pub struct ExChaCha20Rng(ChaCha20Rng);

/// Relies on `ChaCha20Rng::from_seed` (rand_core's `SeedableRng`): builds the
/// deterministic generator for a 32-byte seed whose first eight bytes hold
/// the given word, little endian.
#[verifier::external_body]
fn rng_from_u64_seed(seed: u64) -> ChaCha20Rng {
    let mut bytes = [0u8; 32];
    bytes[..8].copy_from_slice(&seed.to_le_bytes());
    <ChaCha20Rng as rand::SeedableRng>::from_seed(bytes)
}

/// Relies on `ChaCha20Rng::from_entropy` (rand's `SeedableRng`): a generator
/// seeded from the process-wide entropy source.
#[verifier::external_body]
fn rng_from_entropy() -> ChaCha20Rng {
    <ChaCha20Rng as rand::SeedableRng>::from_entropy()
}

/// Relies on `RandBigInt::gen_biguint` for `ChaCha20Rng`: a uniformly random
/// value of at most `bits` bits, so below two to the `bits`.
#[verifier::external_body]
pub fn rng_gen_biguint(rng: &mut ChaCha20Rng, bits: u64) -> (r: BigUint)
    ensures
        biguint_nat(r) < pow2(bits as nat),
{
    num_bigint::RandBigInt::gen_biguint(rng, bits)
}

/// Relies on `RngCore::next_u32` for `ChaCha20Rng`: the next word of the
/// stream; nothing is promised of its value.
#[verifier::external_body]
pub fn rng_next_u32(rng: &mut ChaCha20Rng) -> u32 {
    rand::RngCore::next_u32(rng)
}

/// A random source: deterministic when `seed` is given, otherwise drawn from
/// ambient entropy. Each call builds an independent generator; no random
/// state is shared across calls.
pub fn seeded_rng(seed: Option<u64>) -> ChaCha20Rng {
    match seed {
        Some(s) => rng_from_u64_seed(s),
        None => rng_from_entropy(),
    }
}

/// Parses a decimal string into an arbitrary-precision integer. An invalid
/// string is a caller contract violation, excluded by the precondition.
pub fn parse_biguint(s: &str) -> (r: BigUint)
    requires
        is_dec_seq(s@),
    ensures
        biguint_nat(r) == dec_val(s@),
{
    match big_from_dec(s) {
        Some(v) => v,
        None => {
            proof {
                assert(false);
            }
            vstd::pervasive::unreached()
        },
    }
}

/// The canonical decimal rendering of an arbitrary-precision integer.
pub fn biguint_to_string(n: &BigUint) -> (r: String)
    ensures
        r@ == dec_of(biguint_nat(*n)),
{
    big_to_dec(n)
}


/// The one-character string for a decimal digit value.
fn digit_str(d: u64) -> (r: &'static str)
    requires
        d < 10,
    ensures
        r@ == seq![dec_digit(d as nat)],
{
    let r: &'static str = if d == 0 { "0" }
    else if d == 1 { "1" }
    else if d == 2 { "2" }
    else if d == 3 { "3" }
    else if d == 4 { "4" }
    else if d == 5 { "5" }
    else if d == 6 { "6" }
    else if d == 7 { "7" }
    else if d == 8 { "8" }
    else { "9" };
    proof {
        reveal_strlit("0");
        reveal_strlit("1");
        reveal_strlit("2");
        reveal_strlit("3");
        reveal_strlit("4");
        reveal_strlit("5");
        reveal_strlit("6");
        reveal_strlit("7");
        reveal_strlit("8");
        reveal_strlit("9");
        assert(r@ =~= seq![dec_digit(d as nat)]);
    }
    r
}

/// The canonical decimal rendering of a machine integer.
pub fn u64_to_string(x: u64) -> (r: String)
    ensures
        r@ == dec_of(x as nat),
    decreases x,
{
    if x < 10 {
        String::from_str(digit_str(x))
    } else {
        let mut s = u64_to_string(x / 10);
        s.append(digit_str(x % 10));
        proof {
            assert(s@ =~= dec_of(x as nat));
        }
        s
    }
}

/// The canonical decimal rendering of a 32-bit integer.
pub fn u32_to_string(x: u32) -> (r: String)
    ensures
        r@ == dec_of(x as nat),
{
    u64_to_string(x as u64)
}



/// Relies on `String::from_utf8`: `Ok` exactly for valid UTF-8 encodings;
/// when every byte is ASCII the decoded characters are the byte values.
#[verifier::external_body]
pub fn string_from_utf8(v: Vec<u8>) -> (r: Option<String>)
    ensures
        (forall|i: int| 0 <= i < v@.len() ==> v@[i] < 128) ==> match r {
            Some(s) => s@.len() == v@.len() && (forall|i: int| 0 <= i < v@.len()
                ==> s@[i] == v@[i] as char),
            None => false,
        },
{
    match String::from_utf8(v) {
        Ok(s) => Some(s),
        Err(_) => None,
    }
}


} // verus!
