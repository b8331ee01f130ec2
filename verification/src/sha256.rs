//! SHA-256 with a per-round visualization trace: padding, message schedule,
//! and the sixty-four-round compression of each block, every step recorded
//! with the working variables before the round. The computed hash is proved
//! equal to a direct specification of the compression function.

use vstd::prelude::*;
use vstd::slice::slice_to_vec;
use vstd::string::{StrSliceExecFns, StringExecFns};
use vstd::arithmetic::div_mod::{lemma_add_mod_noop, lemma_small_mod, lemma_mod_division_less_than_divisor};

use crate::util::u32_to_string;

verus! {

/// The round constants of the compression function.
pub const K: [u32; 64] = [
    0x428a2f98, 0x71374491, 0xb5c0fbcf, 0xe9b5dba5, 0x3956c25b, 0x59f111f1, 0x923f82a4, 0xab1c5ed5,
    0xd807aa98, 0x12835b01, 0x243185be, 0x550c7dc3, 0x72be5d74, 0x80deb1fe, 0x9bdc06a7, 0xc19bf174,
    0xe49b69c1, 0xefbe4786, 0x0fc19dc6, 0x240ca1cc, 0x2de92c6f, 0x4a7484aa, 0x5cb0a9dc, 0x76f988da,
    0x983e5152, 0xa831c66d, 0xb00327c8, 0xbf597fc7, 0xc6e00bf3, 0xd5a79147, 0x06ca6351, 0x14292967,
    0x27b70a85, 0x2e1b2138, 0x4d2c6dfc, 0x53380d13, 0x650a7354, 0x766a0abb, 0x81c2c92e, 0x92722c85,
    0xa2bfe8a1, 0xa81a664b, 0xc24b8b70, 0xc76c51a3, 0xd192e819, 0xd6990624, 0xf40e3585, 0x106aa070,
    0x19a4c116, 0x1e376c08, 0x2748774c, 0x34b0bcb5, 0x391c0cb3, 0x4ed8aa4a, 0x5b9cca4f, 0x682e6ff3,
    0x748f82ee, 0x78a5636f, 0x84c87814, 0x8cc70208, 0x90befffa, 0xa4506ceb, 0xbef9a3f7, 0xc67178f2,
];

/// One recorded compression round: the working variables before the round,
/// the schedule word and round constant, and the two temporaries.
pub struct SHA256Step {
    pub step: u32,
    pub description: String,
    pub a: u32,
    pub b: u32,
    pub c: u32,
    pub d: u32,
    pub e: u32,
    pub f: u32,
    pub g: u32,
    pub h: u32,
    pub w: u32,
    pub k: u32,
    pub temp1: u32,
    pub temp2: u32,
}

/// The full digest record: the message, its padding, the eight hash words,
/// their binary rendering, and the per-round trace.
pub struct SHA256Visualization {
    pub message: Vec<u8>,
    pub padded_message: Vec<u8>,
    pub hash: [u32; 8],
    pub final_hash: String,
    pub steps: Vec<SHA256Step>,
}

/// Right rotation of a word.
pub open spec fn s_rotr(x: u32, n: u32) -> u32
    recommends
        1 <= n <= 31,
{
    (x >> n) | (x << ((32 - n) as u32))
}

/// The choice function of the compression round.
pub open spec fn s_ch(x: u32, y: u32, z: u32) -> u32 {
    (x & y) ^ (!x & z)
}

/// The majority function of the compression round.
pub open spec fn s_maj(x: u32, y: u32, z: u32) -> u32 {
    (x & y) ^ (x & z) ^ (y & z)
}

/// The big sigma function applied to the working variable `a`.
pub open spec fn s_sigma0(x: u32) -> u32 {
    s_rotr(x, 2) ^ s_rotr(x, 13) ^ s_rotr(x, 22)
}

/// The big sigma function applied to the working variable `e`.
pub open spec fn s_sigma1(x: u32) -> u32 {
    s_rotr(x, 6) ^ s_rotr(x, 11) ^ s_rotr(x, 25)
}

/// The small sigma function of the schedule extension, first form.
pub open spec fn s_gamma0(x: u32) -> u32 {
    s_rotr(x, 7) ^ s_rotr(x, 18) ^ (x >> 3)
}

/// The small sigma function of the schedule extension, second form.
pub open spec fn s_gamma1(x: u32) -> u32 {
    s_rotr(x, 17) ^ s_rotr(x, 19) ^ (x >> 10)
}

/// A big-endian word from four bytes.
pub open spec fn be_word(b0: u8, b1: u8, b2: u8, b3: u8) -> u32 {
    ((b0 as u32) << 24) | ((b1 as u32) << 16) | ((b2 as u32) << 8) | (b3 as u32)
}

/// The eight big-endian bytes of a word, most significant first.
pub open spec fn u64_be_bytes(x: u64) -> Seq<u8> {
    seq![
        (x >> 56) as u8, (x >> 48) as u8, (x >> 40) as u8, (x >> 32) as u8,
        (x >> 24) as u8, (x >> 16) as u8, (x >> 8) as u8, x as u8,
    ]
}

/// How many zero bytes the padding inserts after the marker byte so that
/// eight length bytes complete a block: the unique count below sixty-four
/// that brings `l + count` to fifty-six modulo sixty-four.
pub open spec fn pad_zero_count(l: nat) -> nat {
    (((56 - ((l % 64) as int)) + 64) % 64) as nat
}

/// The padded message: the message, a single marker byte, zero bytes up to
/// fifty-six modulo sixty-four, and the bit length in eight big-endian
/// bytes.
pub open spec fn pad_spec(msg: Seq<u8>) -> Seq<u8> {
    msg + seq![0x80u8] + Seq::new(pad_zero_count(msg.len() + 1), |i: int| 0u8)
        + u64_be_bytes((msg.len() * 8) as u64)
}

/// The word `i` of the message schedule of one block: the first sixteen come
/// from the block bytes big-endian, the rest extend them.
pub open spec fn w_at(block: Seq<u8>, i: int) -> u32
    decreases i,
{
    if i < 16 {
        be_word(block[4 * i], block[4 * i + 1], block[4 * i + 2], block[4 * i + 3])
    } else {
        s_gamma1(w_at(block, i - 2)).wrapping_add(w_at(block, i - 7)).wrapping_add(
            s_gamma0(w_at(block, i - 15))).wrapping_add(w_at(block, i - 16))
    }
}

/// The first temporary of a compression round.
pub open spec fn t1_spec(st: Seq<u32>, wi: u32, ki: u32) -> u32 {
    st[7].wrapping_add(s_sigma1(st[4])).wrapping_add(s_ch(st[4], st[5], st[6])).wrapping_add(
        ki).wrapping_add(wi)
}

/// The second temporary of a compression round.
pub open spec fn t2_spec(st: Seq<u32>) -> u32 {
    s_sigma0(st[0]).wrapping_add(s_maj(st[0], st[1], st[2]))
}

/// One compression round applied to the eight working variables.
pub open spec fn round_spec(st: Seq<u32>, wi: u32, ki: u32) -> Seq<u32> {
    let t1 = t1_spec(st, wi, ki);
    let t2 = t2_spec(st);
    seq![t1.wrapping_add(t2), st[0], st[1], st[2], st[3].wrapping_add(t1), st[4], st[5], st[6]]
}

/// The working variables after the first `i` rounds of one block.
pub open spec fn rounds_spec(st0: Seq<u32>, block: Seq<u8>, i: nat) -> Seq<u32>
    decreases i,
{
    if i == 0 {
        st0
    } else {
        round_spec(rounds_spec(st0, block, (i - 1) as nat), w_at(block, i - 1), K[i - 1])
    }
}

/// The hash words after folding one block into the previous state.
pub open spec fn block_sum(h: Seq<u32>, block: Seq<u8>) -> Seq<u32> {
    let st = rounds_spec(h, block, 64);
    Seq::new(8, |i: int| h[i].wrapping_add(st[i]))
}

/// The initial hash words.
pub open spec fn init_h() -> Seq<u32> {
    seq![0x6a09e667u32, 0xbb67ae85u32, 0x3c6ef372u32, 0xa54ff53au32,
        0x510e527fu32, 0x9b05688cu32, 0x1f83d9abu32, 0x5be0cd19u32]
}

/// The hash words after the first `b` blocks of a padded message.
pub open spec fn sha_h(padded: Seq<u8>, b: nat) -> Seq<u32>
    decreases b,
{
    if b == 0 {
        init_h()
    } else {
        block_sum(sha_h(padded, (b - 1) as nat), padded.subrange(64 * (b - 1), 64 * b as int))
    }
}

/// The eight hash words of a message: all blocks of its padding folded in.
pub open spec fn sha_spec(msg: Seq<u8>) -> Seq<u32> {
    sha_h(pad_spec(msg), pad_spec(msg).len() / 64)
}

/// The binary rendering of a value in a fixed number of bits, most
/// significant first.
pub open spec fn bin_of(x: nat, width: nat) -> Seq<char>
    decreases width,
{
    if width == 0 {
        Seq::empty()
    } else {
        bin_of(x / 2, (width - 1) as nat).push(if x % 2 == 1 { '1' } else { '0' })
    }
}

/// The concatenated binary rendering of the eight hash words, thirty-two
/// bits each.
pub open spec fn bin256(h: Seq<u32>) -> Seq<char> {
    bin_of(h[0] as nat, 32) + bin_of(h[1] as nat, 32) + bin_of(h[2] as nat, 32)
        + bin_of(h[3] as nat, 32) + bin_of(h[4] as nat, 32) + bin_of(h[5] as nat, 32)
        + bin_of(h[6] as nat, 32) + bin_of(h[7] as nat, 32)
}

/// Pads a message to a whole number of blocks: marker byte, zeros to
/// fifty-six modulo sixty-four, then the bit length big-endian.
fn pad_message(message: &[u8]) -> (r: Vec<u8>)
    requires
        message@.len() < 0x1000_0000_0000_0000,
        message@.len() + 72 <= usize::MAX,
    ensures
        r@ == pad_spec(message@),
        r@.len() % 64 == 0,
        r@.len() == message@.len() + 1 + pad_zero_count(message@.len() + 1) + 8,
{
    let ghost msg = message@;
    let mut padded = slice_to_vec(message);
    padded.push(0x80);
    let ghost l0 = msg.len() + 1;
    let ghost target = pad_zero_count(l0);
    proof {
        lemma_mod_division_less_than_divisor(l0 as int, 64);
        lemma_add_mod_noop(l0 as int, target as int, 64);
        lemma_small_mod((l0 % 64) as nat, 64);
        // l0 + target is 56 modulo 64
        assert((l0 + target) % 64 == 56) by {
            let r0 = (l0 % 64) as int;
            assert(target == ((56 - r0) + 64) % 64);
            if r0 <= 56 {
                lemma_small_mod((56 - r0) as nat, 64);
                assert(((56 - r0) + 64) % 64 == (56 - r0)) by {
                    vstd::arithmetic::div_mod::lemma_mod_add_multiples_vanish(56 - r0, 64);
                }
                lemma_small_mod(56nat, 64);
            } else {
                lemma_small_mod(((56 - r0) + 64) as nat, 64);
                lemma_add_mod_noop(l0 as int, ((56 - r0) + 64) as int, 64);
                vstd::arithmetic::div_mod::lemma_mod_add_multiples_vanish((l0 % 64) + 56 - r0,
                    64);
                lemma_small_mod(56nat, 64);
            }
        }
    }
    while padded.len() % 64 != 56
        invariant
            l0 == msg.len() + 1,
            target == pad_zero_count(l0),
            target < 64,
            (l0 + target) % 64 == 56,
            padded@.len() >= l0,
            padded@.len() - l0 <= target,
            padded@ == msg + seq![0x80u8] + Seq::new((padded@.len() - l0) as nat, |i: int| 0u8),
            padded@.len() + 72 - l0 <= usize::MAX,
        decreases target - (padded@.len() - l0),
    {
        proof {
            let cnt = (padded@.len() - l0) as int;
            if cnt == target {
                assert(padded@.len() % 64 == 56);
            }
            assert(Seq::new((cnt + 1) as nat, |i: int| 0u8)
                =~= Seq::new(cnt as nat, |i: int| 0u8).push(0u8));
        }
        padded.push(0x00);
    }
    proof {
        // the count reached is exactly the specified count
        let cnt = (padded@.len() - l0) as int;
        assert((l0 + cnt) % 64 == 56);
        if cnt < target {
            let d = target - cnt;
            lemma_add_mod_noop((l0 + cnt) as int, d, 64);
            lemma_small_mod(56, 64);
            assert((56 + d) % 64 == 56);
            if d < 8 {
                lemma_small_mod((56 + d) as nat, 64);
            } else {
                vstd::arithmetic::div_mod::lemma_mod_add_multiples_vanish(56 + d - 64, 64);
                lemma_small_mod((56 + d - 64) as nat, 64);
            }
        }
        assert(cnt == target);
    }
    let bit_len: u64 = (message.len() as u64) * 8;
    padded.push((bit_len >> 56) as u8);
    padded.push((bit_len >> 48) as u8);
    padded.push((bit_len >> 40) as u8);
    padded.push((bit_len >> 32) as u8);
    padded.push((bit_len >> 24) as u8);
    padded.push((bit_len >> 16) as u8);
    padded.push((bit_len >> 8) as u8);
    padded.push(bit_len as u8);
    proof {
        assert(padded@ =~= pad_spec(msg));
        assert((l0 + target) % 64 == 56);
        assert(padded@.len() == l0 + target + 8);
        assert(padded@.len() % 64 == 0) by {
            lemma_add_mod_noop((l0 + target) as int, 8, 64);
            lemma_small_mod(56, 64);
            lemma_small_mod(0, 64);
            vstd::arithmetic::div_mod::lemma_mod_self_0(64);
        }
    }
    padded
}

/// Right rotation of a word.
fn rotr(x: u32, n: u32) -> (r: u32)
    requires
        1 <= n <= 31,
    ensures
        r == s_rotr(x, n),
{
    (x >> n) | (x << (32 - n))
}

/// The choice function of the compression round.
fn ch(x: u32, y: u32, z: u32) -> (r: u32)
    ensures
        r == s_ch(x, y, z),
{
    (x & y) ^ (!x & z)
}

/// The majority function of the compression round.
fn maj(x: u32, y: u32, z: u32) -> (r: u32)
    ensures
        r == s_maj(x, y, z),
{
    (x & y) ^ (x & z) ^ (y & z)
}

/// The big sigma function applied to the working variable `a`.
fn sigma0(x: u32) -> (r: u32)
    ensures
        r == s_sigma0(x),
{
    rotr(x, 2) ^ rotr(x, 13) ^ rotr(x, 22)
}

/// The big sigma function applied to the working variable `e`.
fn sigma1(x: u32) -> (r: u32)
    ensures
        r == s_sigma1(x),
{
    rotr(x, 6) ^ rotr(x, 11) ^ rotr(x, 25)
}

/// The small sigma function of the schedule extension, first form.
fn gamma0(x: u32) -> (r: u32)
    ensures
        r == s_gamma0(x),
{
    rotr(x, 7) ^ rotr(x, 18) ^ (x >> 3)
}

/// The small sigma function of the schedule extension, second form.
fn gamma1(x: u32) -> (r: u32)
    ensures
        r == s_gamma1(x),
{
    rotr(x, 17) ^ rotr(x, 19) ^ (x >> 10)
}

/// Renders the low `width` bits of a word in binary, most significant first.
fn bin_width(x: u32, width: u32) -> (r: String)
    requires
        width <= 32,
    ensures
        r@ == bin_of(x as nat, width as nat),
    decreases width,
{
    if width == 0 {
        String::new()
    } else {
        let mut s = bin_width(x >> 1u32, width - 1);
        proof {
            assert(x >> 1u32 == x / 2) by (bit_vector);
            assert((x & 1 == 1) <==> (x % 2 == 1)) by (bit_vector);
            reveal_strlit("1");
            reveal_strlit("0");
        }
        if x & 1 == 1 {
            s.append("1");
        } else {
            s.append("0");
        }
        proof {
            assert(s@ =~= bin_of(x as nat, width as nat));
        }
        s
    }
}

/// Builds the round description `Round i compression`.
fn round_description(i: u32) -> (r: String) {
    let mut s = String::from_str("Round ");
    s.append(u32_to_string(i).as_str());
    s.append(" compression");
    s
}

/// What one recorded step holds: the working variables before its round of
/// its block, the schedule word, the round constant, and the temporaries.
pub open spec fn step_ok(st: SHA256Step, padded: Seq<u8>, idx: int) -> bool {
    let b = idx / 64;
    let i = idx % 64;
    let block = padded.subrange(64 * b, 64 * b + 64);
    let s = rounds_spec(sha_h(padded, b as nat), block, i as nat);
    &&& st.step == i
    &&& st.a == s[0]
    &&& st.b == s[1]
    &&& st.c == s[2]
    &&& st.d == s[3]
    &&& st.e == s[4]
    &&& st.f == s[5]
    &&& st.g == s[6]
    &&& st.h == s[7]
    &&& st.w == w_at(block, i)
    &&& st.k == K[i]
    &&& st.temp1 == t1_spec(s, w_at(block, i), K[i])
    &&& st.temp2 == t2_spec(s)
}

/// Computes the SHA-256 digest of a message, recording all sixty-four
/// compression rounds of every block. The hash words, the padding, the
/// binary rendering, and every recorded step are pinned to the
/// specification.
pub fn sha256_with_visualization(message: &[u8]) -> (r: SHA256Visualization)
    requires
        message@.len() < 0x1000_0000_0000_0000,
        message@.len() + 72 <= usize::MAX,
    ensures
        r.message@ == message@,
        r.padded_message@ == pad_spec(message@),
        r.hash@ == sha_spec(message@),
        r.final_hash@ == bin256(sha_spec(message@)),
        r.steps@.len() == 64 * (pad_spec(message@).len() / 64),
        forall|idx: int| 0 <= idx < r.steps@.len() ==> step_ok(r.steps@[idx], pad_spec(message@),
            idx),
{
    let padded_message = pad_message(message);
    let ghost padded = padded_message@;
    let mut steps: Vec<SHA256Step> = Vec::new();

    let mut h0: u32 = 0x6a09e667;
    let mut h1: u32 = 0xbb67ae85;
    let mut h2: u32 = 0x3c6ef372;
    let mut h3: u32 = 0xa54ff53a;
    let mut h4: u32 = 0x510e527f;
    let mut h5: u32 = 0x9b05688c;
    let mut h6: u32 = 0x1f83d9ab;
    let mut h7: u32 = 0x5be0cd19;

    let mut chunk_start: usize = 0;
    while chunk_start < padded_message.len()
        invariant
            padded == padded_message@,
            padded.len() % 64 == 0,
            chunk_start % 64 == 0,
            chunk_start <= padded.len(),
            seq![h0, h1, h2, h3, h4, h5, h6, h7] =~= sha_h(padded, (chunk_start / 64) as nat),
            steps@.len() == chunk_start,
            forall|idx: int| 0 <= idx < steps@.len() ==> step_ok(steps@[idx], padded, idx),
        decreases padded.len() - chunk_start,
    {
        proof {
            let diff = (padded.len() - chunk_start) as int;
            vstd::arithmetic::div_mod::lemma_sub_mod_noop(padded.len() as int,
                chunk_start as int, 64);
            lemma_small_mod(0nat, 64);
            if diff < 64 {
                lemma_small_mod(diff as nat, 64);
            }
            assert(diff >= 64);
        }
        let ghost bix = (chunk_start / 64) as nat;
        let ghost block = padded.subrange(chunk_start as int, chunk_start as int + 64);
        proof {
            vstd::arithmetic::div_mod::lemma_fundamental_div_mod(chunk_start as int, 64);
            assert(64 * (chunk_start as int / 64) == chunk_start as int);
        }

        let mut w: Vec<u32> = Vec::new();
        let mut i: usize = 0;
        while i < 16
            invariant
                padded == padded_message@,
                padded.len() <= usize::MAX,
                chunk_start + 64 <= padded.len(),
                block == padded.subrange(chunk_start as int, chunk_start as int + 64),
                i <= 16,
                w@.len() == i,
                forall|k: int| 0 <= k < i ==> w@[k] == w_at(block, k),
            decreases 16 - i,
        {
            let off = chunk_start + 4 * i;
            let word = ((padded_message[off] as u32) << 24u32)
                | ((padded_message[off + 1] as u32) << 16u32)
                | ((padded_message[off + 2] as u32) << 8u32)
                | (padded_message[off + 3] as u32);
            proof {
                assert(block[4 * (i as int)] == padded[chunk_start as int + 4 * (i as int)]);
                assert(block[4 * (i as int) + 1] == padded[chunk_start as int + 4 * (i as int)
                    + 1]);
                assert(block[4 * (i as int) + 2] == padded[chunk_start as int + 4 * (i as int)
                    + 2]);
                assert(block[4 * (i as int) + 3] == padded[chunk_start as int + 4 * (i as int)
                    + 3]);
                assert(word == be_word(block[4 * (i as int)], block[4 * (i as int) + 1],
                    block[4 * (i as int) + 2], block[4 * (i as int) + 3]));
                assert(w_at(block, i as int) == be_word(block[4 * (i as int)],
                    block[4 * (i as int) + 1], block[4 * (i as int) + 2],
                    block[4 * (i as int) + 3]));
            }
            w.push(word);
            i = i + 1;
        }
        while i < 64
            invariant
                16 <= i <= 64,
                w@.len() == i,
                forall|k: int| 0 <= k < i ==> w@[k] == w_at(block, k),
            decreases 64 - i,
        {
            let word = gamma1(w[i - 2]).wrapping_add(w[i - 7]).wrapping_add(
                gamma0(w[i - 15])).wrapping_add(w[i - 16]);
            proof {
                assert(w_at(block, i as int) == s_gamma1(w_at(block, i as int - 2)).wrapping_add(
                    w_at(block, i as int - 7)).wrapping_add(s_gamma0(w_at(block,
                    i as int - 15))).wrapping_add(w_at(block, i as int - 16)));
            }
            w.push(word);
            i = i + 1;
        }

        let mut a = h0;
        let mut b = h1;
        let mut c = h2;
        let mut d = h3;
        let mut e = h4;
        let mut f = h5;
        let mut g = h6;
        let mut hh = h7;
        let ghost st0 = seq![h0, h1, h2, h3, h4, h5, h6, h7];

        let mut t: usize = 0;
        while t < 64
            invariant
                t <= 64,
                w@.len() == 64,
                forall|k: int| 0 <= k < 64 ==> w@[k] == w_at(block, k),
                st0 == sha_h(padded, bix),
                st0 =~= seq![h0, h1, h2, h3, h4, h5, h6, h7],
                chunk_start % 64 == 0,
                bix == (chunk_start / 64) as nat,
                block == padded.subrange(chunk_start as int, chunk_start as int + 64),
                chunk_start + 64 <= padded.len(),
                ({
                    let s = rounds_spec(st0, block, t as nat);
                    a == s[0] && b == s[1] && c == s[2] && d == s[3] && e == s[4] && f == s[5]
                        && g == s[6] && hh == s[7]
                }),
                steps@.len() == chunk_start + t,
                forall|idx: int| 0 <= idx < steps@.len() ==> step_ok(steps@[idx], padded, idx),
            decreases 64 - t,
        {
            let ghost scur = rounds_spec(st0, block, t as nat);
            let temp1 = hh.wrapping_add(sigma1(e)).wrapping_add(ch(e, f, g)).wrapping_add(
                K[t]).wrapping_add(w[t]);
            let temp2 = sigma0(a).wrapping_add(maj(a, b, c));
            steps.push(SHA256Step {
                step: t as u32,
                description: round_description(t as u32),
                a, b, c, d, e, f, g,
                h: hh,
                w: w[t],
                k: K[t],
                temp1,
                temp2,
            });
            proof {
                let idx = chunk_start as int + t;
                vstd::arithmetic::div_mod::lemma_fundamental_div_mod_converse(idx, 64,
                    chunk_start as int / 64, t as int);
                assert(idx / 64 == chunk_start as int / 64 && idx % 64 == t as int);
                assert(step_ok(steps@[steps@.len() - 1], padded, idx));
            }
            hh = g;
            g = f;
            f = e;
            e = d.wrapping_add(temp1);
            d = c;
            c = b;
            b = a;
            a = temp1.wrapping_add(temp2);
            proof {
                let snext = rounds_spec(st0, block, (t + 1) as nat);
                assert(snext == round_spec(scur, w_at(block, t as int), K[t as int]));
            }
            t = t + 1;
        }

        h0 = h0.wrapping_add(a);
        h1 = h1.wrapping_add(b);
        h2 = h2.wrapping_add(c);
        h3 = h3.wrapping_add(d);
        h4 = h4.wrapping_add(e);
        h5 = h5.wrapping_add(f);
        h6 = h6.wrapping_add(g);
        h7 = h7.wrapping_add(hh);
        proof {
            let bnext = (bix + 1) as nat;
            assert(64 * (bnext - 1) == chunk_start as int);
            assert(sha_h(padded, bnext) == block_sum(st0, block));
            assert(seq![h0, h1, h2, h3, h4, h5, h6, h7] =~= block_sum(st0, block));
            vstd::arithmetic::div_mod::lemma_fundamental_div_mod_converse(
                chunk_start as int + 64, 64, chunk_start as int / 64 + 1, 0);
        }
        chunk_start = chunk_start + 64;
    }

    let mut final_hash = bin_width(h0, 32);
    final_hash.append(bin_width(h1, 32).as_str());
    final_hash.append(bin_width(h2, 32).as_str());
    final_hash.append(bin_width(h3, 32).as_str());
    final_hash.append(bin_width(h4, 32).as_str());
    final_hash.append(bin_width(h5, 32).as_str());
    final_hash.append(bin_width(h6, 32).as_str());
    final_hash.append(bin_width(h7, 32).as_str());

    let hash: [u32; 8] = [h0, h1, h2, h3, h4, h5, h6, h7];
    proof {
        assert(hash@ =~= seq![h0, h1, h2, h3, h4, h5, h6, h7]);
        assert(padded.len() / 64 * 64 == padded.len()) by {
            vstd::arithmetic::div_mod::lemma_fundamental_div_mod(padded.len() as int, 64);
        }
        assert(final_hash@ =~= bin256(sha_spec(message@)));
    }
    SHA256Visualization {
        message: slice_to_vec(message),
        padded_message,
        hash,
        final_hash,
        steps,
    }
}

} // verus!
