//! AES-128 encryption with a per-step visualization trace: the state matrix
//! after every substitution, row shift, column mix and round-key addition.
//! The ciphertext is proved equal to a direct specification of the cipher.

use vstd::prelude::*;
use vstd::string::{StrSliceExecFns, StringExecFns};
use crate::util::u32_to_string;

verus! {

/// The substitution box.
pub const SBOX: [u8; 256] = [
    0x63, 0x7c, 0x77, 0x7b, 0xf2, 0x6b, 0x6f, 0xc5, 0x30, 0x01, 0x67, 0x2b, 0xfe, 0xd7, 0xab, 0x76,
    0xca, 0x82, 0xc9, 0x7d, 0xfa, 0x59, 0x47, 0xf0, 0xad, 0xd4, 0xa2, 0xaf, 0x9c, 0xa4, 0x72, 0xc0,
    0xb7, 0xfd, 0x93, 0x26, 0x36, 0x3f, 0xf7, 0xcc, 0x34, 0xa5, 0xe5, 0xf1, 0x71, 0xd8, 0x31, 0x15,
    0x04, 0xc7, 0x23, 0xc3, 0x18, 0x96, 0x05, 0x9a, 0x07, 0x12, 0x80, 0xe2, 0xeb, 0x27, 0xb2, 0x75,
    0x09, 0x83, 0x2c, 0x1a, 0x1b, 0x6e, 0x5a, 0xa0, 0x52, 0x3b, 0xd6, 0xb3, 0x29, 0xe3, 0x2f, 0x84,
    0x53, 0xd1, 0x00, 0xed, 0x20, 0xfc, 0xb1, 0x5b, 0x6a, 0xcb, 0xbe, 0x39, 0x4a, 0x4c, 0x58, 0xcf,
    0xd0, 0xef, 0xaa, 0xfb, 0x43, 0x4d, 0x33, 0x85, 0x45, 0xf9, 0x02, 0x7f, 0x50, 0x3c, 0x9f, 0xa8,
    0x51, 0xa3, 0x40, 0x8f, 0x92, 0x9d, 0x38, 0xf5, 0xbc, 0xb6, 0xda, 0x21, 0x10, 0xff, 0xf3, 0xd2,
    0xcd, 0x0c, 0x13, 0xec, 0x5f, 0x97, 0x44, 0x17, 0xc4, 0xa7, 0x7e, 0x3d, 0x64, 0x5d, 0x19, 0x73,
    0x60, 0x81, 0x4f, 0xdc, 0x22, 0x2a, 0x90, 0x88, 0x46, 0xee, 0xb8, 0x14, 0xde, 0x5e, 0x0b, 0xdb,
    0xe0, 0x32, 0x3a, 0x0a, 0x49, 0x06, 0x24, 0x5c, 0xc2, 0xd3, 0xac, 0x62, 0x91, 0x95, 0xe4, 0x79,
    0xe7, 0xc8, 0x37, 0x6d, 0x8d, 0xd5, 0x4e, 0xa9, 0x6c, 0x56, 0xf4, 0xea, 0x65, 0x7a, 0xae, 0x08,
    0xba, 0x78, 0x25, 0x2e, 0x1c, 0xa6, 0xb4, 0xc6, 0xe8, 0xdd, 0x74, 0x1f, 0x4b, 0xbd, 0x8b, 0x8a,
    0x70, 0x3e, 0xb5, 0x66, 0x48, 0x03, 0xf6, 0x0e, 0x61, 0x35, 0x57, 0xb9, 0x86, 0xc1, 0x1d, 0x9e,
    0xe1, 0xf8, 0x98, 0x11, 0x69, 0xd9, 0x8e, 0x94, 0x9b, 0x1e, 0x87, 0xe9, 0xce, 0x55, 0x28, 0xdf,
    0x8c, 0xa1, 0x89, 0x0d, 0xbf, 0xe6, 0x42, 0x68, 0x41, 0x99, 0x2d, 0x0f, 0xb0, 0x54, 0xbb, 0x16,
];

/// The round constants of the key expansion.
pub const RCON: [u8; 11] = [0x00, 0x01, 0x02, 0x04, 0x08, 0x10, 0x20, 0x40, 0x80, 0x1b, 0x36];

/// One recorded stage of the encryption: the state matrix after the named
/// transformation.
pub struct AESRoundState {
    pub round: u32,
    pub step: String,
    pub state: [[u8; 4]; 4],
    pub description: String,
    pub intermediate_values: Vec<String>,
}

/// The full encryption record: input block, key, ciphertext, and the state
/// after every transformation.
pub struct AESVisualization {
    pub plaintext: [u8; 16],
    pub key: [u8; 16],
    pub ciphertext: [u8; 16],
    pub rounds: Vec<AESRoundState>,
}

/// The state matrix as a sequence of rows of bytes.
pub open spec fn sv(s: [[u8; 4]; 4]) -> Seq<Seq<u8>> {
    Seq::new(4, |i: int| Seq::new(4, |j: int| s@[i]@[j]))
}

/// The substitution of one byte.
pub open spec fn sbox_spec(b: u8) -> u8 {
    SBOX[b as int]
}

/// Byte substitution over the whole state.
pub open spec fn sub_bytes_spec(m: Seq<Seq<u8>>) -> Seq<Seq<u8>> {
    Seq::new(4, |i: int| Seq::new(4, |j: int| sbox_spec(m[i][j])))
}

/// Row `i` rotated left by `i`.
pub open spec fn shift_rows_spec(m: Seq<Seq<u8>>) -> Seq<Seq<u8>> {
    Seq::new(4, |i: int| Seq::new(4, |j: int| m[i][(j + i) % 4]))
}

/// One step of the finite-field multiplication loop: conditionally add the
/// first factor, double it modulo the field polynomial, and halve the
/// second.
pub open spec fn gmul_step(a: u8, b: u8, acc: u8, n: nat) -> u8
    decreases n,
{
    if n == 0 {
        acc
    } else {
        let acc2 = if b & 1 != 0 {
            acc ^ a
        } else {
            acc
        };
        let a2 = if a & 0x80 != 0 {
            (a << 1u8) ^ 0x1b
        } else {
            a << 1u8
        };
        gmul_step(a2, b >> 1u8, acc2, (n - 1) as nat)
    }
}

/// Multiplication in the field of the cipher, by eight shift-and-add steps.
pub open spec fn gmul_spec(a: u8, b: u8) -> u8 {
    gmul_step(a, b, 0, 8)
}

/// The fixed-polynomial column mix.
pub open spec fn mix_columns_spec(m: Seq<Seq<u8>>) -> Seq<Seq<u8>> {
    Seq::new(4, |i: int| Seq::new(4, |c: int|
        if i == 0 {
            gmul_spec(2, m[0][c]) ^ gmul_spec(3, m[1][c]) ^ m[2][c] ^ m[3][c]
        } else if i == 1 {
            m[0][c] ^ gmul_spec(2, m[1][c]) ^ gmul_spec(3, m[2][c]) ^ m[3][c]
        } else if i == 2 {
            m[0][c] ^ m[1][c] ^ gmul_spec(2, m[2][c]) ^ gmul_spec(3, m[3][c])
        } else {
            gmul_spec(3, m[0][c]) ^ m[1][c] ^ m[2][c] ^ gmul_spec(2, m[3][c])
        }))
}

/// Bytewise addition of a round key.
pub open spec fn add_round_key_spec(m: Seq<Seq<u8>>, k: Seq<Seq<u8>>) -> Seq<Seq<u8>> {
    Seq::new(4, |i: int| Seq::new(4, |j: int| m[i][j] ^ k[i][j]))
}

/// Word `i` of the expanded key schedule, as a sequence of four bytes.
pub open spec fn ks_word(key: Seq<u8>, i: int) -> Seq<u8>
    decreases i,
{
    if i < 4 {
        Seq::new(4, |j: int| key[i * 4 + j])
    } else {
        let prev = ks_word(key, i - 1);
        let temp = if i % 4 == 0 {
            Seq::new(4, |j: int|
                if j == 0 {
                    sbox_spec(prev[1]) ^ RCON[i / 4]
                } else {
                    sbox_spec(prev[(j + 1) % 4])
                })
        } else {
            prev
        };
        let base = ks_word(key, i - 4);
        Seq::new(4, |j: int| base[j] ^ temp[j])
    }
}

/// Round key `round` of the schedule: word bytes laid out column-major.
pub open spec fn round_key_spec(key: Seq<u8>, round: int) -> Seq<Seq<u8>> {
    Seq::new(4, |row: int| Seq::new(4, |col: int| ks_word(key, round * 4 + col)[row]))
}

/// The input block loaded column-major into the state matrix.
pub open spec fn load_state_spec(pt: Seq<u8>) -> Seq<Seq<u8>> {
    Seq::new(4, |j: int| Seq::new(4, |i: int| pt[i * 4 + j]))
}

/// One main round: substitution, row shift, column mix, round-key addition.
pub open spec fn round_fn_spec(m: Seq<Seq<u8>>, k: Seq<Seq<u8>>) -> Seq<Seq<u8>> {
    add_round_key_spec(mix_columns_spec(shift_rows_spec(sub_bytes_spec(m))), k)
}

/// The state after the initial key addition and the first `r` main rounds.
pub open spec fn rounds_state_spec(pt: Seq<u8>, key: Seq<u8>, r: nat) -> Seq<Seq<u8>>
    decreases r,
{
    if r == 0 {
        add_round_key_spec(load_state_spec(pt), round_key_spec(key, 0))
    } else {
        round_fn_spec(rounds_state_spec(pt, key, (r - 1) as nat), round_key_spec(key, r as int))
    }
}

/// The final state: nine main rounds, then substitution, row shift and the
/// last key addition without a column mix.
pub open spec fn final_state_spec(pt: Seq<u8>, key: Seq<u8>) -> Seq<Seq<u8>> {
    add_round_key_spec(shift_rows_spec(sub_bytes_spec(rounds_state_spec(pt, key, 9))),
        round_key_spec(key, 10))
}

/// The ciphertext: the final state unloaded column-major.
pub open spec fn aes_cipher_spec(pt: Seq<u8>, key: Seq<u8>) -> Seq<u8> {
    Seq::new(16, |k: int| final_state_spec(pt, key)[k % 4][k / 4])
}

/// The state that trace record `idx` shows: the initial matrix, then the
/// matrix after each transformation of each round, ending at the final
/// state.
pub open spec fn aes_stage_state(pt: Seq<u8>, key: Seq<u8>, idx: int) -> Seq<Seq<u8>> {
    if idx == 0 {
        load_state_spec(pt)
    } else if idx == 1 {
        rounds_state_spec(pt, key, 0)
    } else if idx <= 37 {
        let r = (idx - 2) / 4 + 1;
        let t = (idx - 2) % 4;
        let base = rounds_state_spec(pt, key, (r - 1) as nat);
        if t == 0 {
            sub_bytes_spec(base)
        } else if t == 1 {
            shift_rows_spec(sub_bytes_spec(base))
        } else if t == 2 {
            mix_columns_spec(shift_rows_spec(sub_bytes_spec(base)))
        } else {
            rounds_state_spec(pt, key, r as nat)
        }
    } else if idx == 38 {
        sub_bytes_spec(rounds_state_spec(pt, key, 9))
    } else if idx == 39 {
        shift_rows_spec(sub_bytes_spec(rounds_state_spec(pt, key, 9)))
    } else {
        final_state_spec(pt, key)
    }
}

/// The transformation label of trace record `idx`.
pub open spec fn aes_stage_label(idx: int) -> Seq<char> {
    if idx == 0 {
        "Initial State"@
    } else if idx == 1 || idx == 40 {
        "AddRoundKey"@
    } else if idx == 38 {
        "SubBytes"@
    } else if idx == 39 {
        "ShiftRows"@
    } else {
        let t = (idx - 2) % 4;
        if t == 0 {
            "SubBytes"@
        } else if t == 1 {
            "ShiftRows"@
        } else if t == 2 {
            "MixColumns"@
        } else {
            "AddRoundKey"@
        }
    }
}

/// The round number of trace record `idx`.
pub open spec fn aes_stage_round(idx: int) -> u32 {
    if idx <= 1 {
        0
    } else if idx <= 37 {
        ((idx - 2) / 4 + 1) as u32
    } else {
        10
    }
}

/// Trace record `idx` shows the right round, label and state.
pub open spec fn aes_record_ok(rec: AESRoundState, pt: Seq<u8>, key: Seq<u8>, idx: int) -> bool {
    &&& sv(rec.state) == aes_stage_state(pt, key, idx)
    &&& rec.step@ == aes_stage_label(idx)
    &&& rec.round == aes_stage_round(idx)
}

/// Byte substitution over the whole state.
fn sub_bytes(state: &[[u8; 4]; 4]) -> (r: [[u8; 4]; 4])
    ensures
        sv(r) =~~= sub_bytes_spec(sv(*state)),
{
    let r = [
        [SBOX[state[0][0] as usize], SBOX[state[0][1] as usize], SBOX[state[0][2] as usize],
            SBOX[state[0][3] as usize]],
        [SBOX[state[1][0] as usize], SBOX[state[1][1] as usize], SBOX[state[1][2] as usize],
            SBOX[state[1][3] as usize]],
        [SBOX[state[2][0] as usize], SBOX[state[2][1] as usize], SBOX[state[2][2] as usize],
            SBOX[state[2][3] as usize]],
        [SBOX[state[3][0] as usize], SBOX[state[3][1] as usize], SBOX[state[3][2] as usize],
            SBOX[state[3][3] as usize]],
    ];
    proof {
        assert(sv(r) =~~= sub_bytes_spec(sv(*state)));
    }
    r
}

/// Rotates each row left by its index.
fn shift_rows(state: &[[u8; 4]; 4]) -> (r: [[u8; 4]; 4])
    ensures
        sv(r) =~~= shift_rows_spec(sv(*state)),
{
    let r = [
        [state[0][0], state[0][1], state[0][2], state[0][3]],
        [state[1][1], state[1][2], state[1][3], state[1][0]],
        [state[2][2], state[2][3], state[2][0], state[2][1]],
        [state[3][3], state[3][0], state[3][1], state[3][2]],
    ];
    proof {
        assert(sv(r) =~~= shift_rows_spec(sv(*state)));
    }
    r
}

/// Multiplication in the field of the cipher.
fn gmul(a: u8, b: u8) -> (r: u8)
    ensures
        r == gmul_spec(a, b),
{
    let mut result: u8 = 0;
    let mut av = a;
    let mut bv = b;
    let mut n: u32 = 0;
    while n < 8
        invariant
            n <= 8,
            gmul_step(av, bv, result, (8 - n) as nat) == gmul_spec(a, b),
        decreases 8 - n,
    {
        let ghost a0 = av;
        let ghost b0 = bv;
        let ghost r0 = result;
        if bv & 1 != 0 {
            result = result ^ av;
        }
        let hi_bit_set = av & 0x80 != 0;
        av = av << 1;
        if hi_bit_set {
            av = av ^ 0x1b;
        }
        bv = bv >> 1;
        proof {
            assert(gmul_step(a0, b0, r0, (8 - n) as nat) == gmul_step(av, bv, result, (8 - n
                - 1) as nat));
        }
        n = n + 1;
    }
    result
}

/// Mixes each column by the fixed polynomial.
fn mix_columns(state: &[[u8; 4]; 4]) -> (r: [[u8; 4]; 4])
    ensures
        sv(r) =~~= mix_columns_spec(sv(*state)),
{
    let mut out0: [u8; 4] = [0u8; 4];
    let mut out1: [u8; 4] = [0u8; 4];
    let mut out2: [u8; 4] = [0u8; 4];
    let mut out3: [u8; 4] = [0u8; 4];
    let mut c: usize = 0;
    while c < 4
        invariant
            c <= 4,
            forall|k: int| 0 <= k < c ==> out0@[k] == gmul_spec(2, sv(*state)[0][k]) ^ gmul_spec(
                3, sv(*state)[1][k]) ^ sv(*state)[2][k] ^ sv(*state)[3][k],
            forall|k: int| 0 <= k < c ==> out1@[k] == sv(*state)[0][k] ^ gmul_spec(2,
                sv(*state)[1][k]) ^ gmul_spec(3, sv(*state)[2][k]) ^ sv(*state)[3][k],
            forall|k: int| 0 <= k < c ==> out2@[k] == sv(*state)[0][k] ^ sv(*state)[1][k]
                ^ gmul_spec(2, sv(*state)[2][k]) ^ gmul_spec(3, sv(*state)[3][k]),
            forall|k: int| 0 <= k < c ==> out3@[k] == gmul_spec(3, sv(*state)[0][k])
                ^ sv(*state)[1][k] ^ sv(*state)[2][k] ^ gmul_spec(2, sv(*state)[3][k]),
        decreases 4 - c,
    {
        let s0 = state[0][c];
        let s1 = state[1][c];
        let s2 = state[2][c];
        let s3 = state[3][c];
        out0[c] = gmul(2, s0) ^ gmul(3, s1) ^ s2 ^ s3;
        out1[c] = s0 ^ gmul(2, s1) ^ gmul(3, s2) ^ s3;
        out2[c] = s0 ^ s1 ^ gmul(2, s2) ^ gmul(3, s3);
        out3[c] = gmul(3, s0) ^ s1 ^ s2 ^ gmul(2, s3);
        c = c + 1;
    }
    let r = [out0, out1, out2, out3];
    proof {
        assert(sv(r) =~~= mix_columns_spec(sv(*state)));
    }
    r
}

/// Adds a round key bytewise.
fn add_round_key(state: &[[u8; 4]; 4], round_key: &[[u8; 4]; 4]) -> (r: [[u8; 4]; 4])
    ensures
        sv(r) =~~= add_round_key_spec(sv(*state), sv(*round_key)),
{
    let r = [
        [state[0][0] ^ round_key[0][0], state[0][1] ^ round_key[0][1],
            state[0][2] ^ round_key[0][2], state[0][3] ^ round_key[0][3]],
        [state[1][0] ^ round_key[1][0], state[1][1] ^ round_key[1][1],
            state[1][2] ^ round_key[1][2], state[1][3] ^ round_key[1][3]],
        [state[2][0] ^ round_key[2][0], state[2][1] ^ round_key[2][1],
            state[2][2] ^ round_key[2][2], state[2][3] ^ round_key[2][3]],
        [state[3][0] ^ round_key[3][0], state[3][1] ^ round_key[3][1],
            state[3][2] ^ round_key[3][2], state[3][3] ^ round_key[3][3]],
    ];
    proof {
        assert(sv(r) =~~= add_round_key_spec(sv(*state), sv(*round_key)));
    }
    r
}

/// Expands the key into the eleven round keys.
fn key_expansion(key: &[u8; 16]) -> (r: Vec<[[u8; 4]; 4]>)
    ensures
        r@.len() == 11,
        forall|round: int| 0 <= round < 11 ==> sv(#[trigger] r@[round]) =~~= round_key_spec(
            key@, round),
{
    let mut w: Vec<[u8; 4]> = Vec::new();
    let mut i: usize = 0;
    while i < 4
        invariant
            i <= 4,
            w@.len() == i,
            forall|k: int| 0 <= k < i ==> (#[trigger] w@[k])@ =~= ks_word(key@, k),
        decreases 4 - i,
    {
        let word = [key[i * 4], key[i * 4 + 1], key[i * 4 + 2], key[i * 4 + 3]];
        proof {
            assert(word@ =~= ks_word(key@, i as int));
        }
        w.push(word);
        i = i + 1;
    }
    while i < 44
        invariant
            4 <= i <= 44,
            w@.len() == i,
            forall|k: int| 0 <= k < i ==> (#[trigger] w@[k])@ =~= ks_word(key@, k),
        decreases 44 - i,
    {
        let prev = w[i - 1];
        let temp: [u8; 4] = if i % 4 == 0 {
            [
                SBOX[prev[1] as usize] ^ RCON[i / 4],
                SBOX[prev[2] as usize],
                SBOX[prev[3] as usize],
                SBOX[prev[0] as usize],
            ]
        } else {
            prev
        };
        let base = w[i - 4];
        let word = [base[0] ^ temp[0], base[1] ^ temp[1], base[2] ^ temp[2], base[3] ^ temp[3]];
        proof {
            assert(word@ =~= ks_word(key@, i as int));
        }
        w.push(word);
        i = i + 1;
    }
    let mut round_keys: Vec<[[u8; 4]; 4]> = Vec::new();
    let mut round: usize = 0;
    while round < 11
        invariant
            round <= 11,
            w@.len() == 44,
            forall|k: int| 0 <= k < 44 ==> (#[trigger] w@[k])@ =~= ks_word(key@, k),
            round_keys@.len() == round,
            forall|t: int| 0 <= t < round ==> sv(#[trigger] round_keys@[t]) =~~= round_key_spec(
                key@, t),
        decreases 11 - round,
    {
        let rk = [
            [w[round * 4][0], w[round * 4 + 1][0], w[round * 4 + 2][0], w[round * 4 + 3][0]],
            [w[round * 4][1], w[round * 4 + 1][1], w[round * 4 + 2][1], w[round * 4 + 3][1]],
            [w[round * 4][2], w[round * 4 + 1][2], w[round * 4 + 2][2], w[round * 4 + 3][2]],
            [w[round * 4][3], w[round * 4 + 1][3], w[round * 4 + 2][3], w[round * 4 + 3][3]],
        ];
        proof {
            assert(sv(rk) =~~= round_key_spec(key@, round as int));
        }
        round_keys.push(rk);
        round = round + 1;
    }
    round_keys
}

/// A single-note list for a step record.
fn one_note(note: &str) -> (r: Vec<String>) {
    let mut v: Vec<String> = Vec::new();
    v.push(String::from_str(note));
    v
}

/// Builds the round description for a key addition.
fn ark_description(round: u32) -> (r: String) {
    let mut s = String::from_str("XOR state with round key ");
    s.append(u32_to_string(round).as_str());
    s
}

/// The record index `2 + 4*(round-1) + t` decomposes back into its round
/// and transformation offset.
proof fn lemma_stage_index(round: int, t: int)
    requires
        1 <= round <= 9,
        0 <= t < 4,
    ensures
        (2 + 4 * (round - 1) + t - 2) / 4 == round - 1,
        (2 + 4 * (round - 1) + t - 2) % 4 == t,
        2 <= 2 + 4 * (round - 1) + t <= 37,
{
    vstd::arithmetic::div_mod::lemma_fundamental_div_mod_converse(4 * (round - 1) + t, 4,
        round - 1, t);
}

/// Encrypts one block under one key, recording the state after every
/// transformation of every round. The ciphertext is pinned to the cipher
/// specification.
pub fn aes_encrypt_with_visualization(plaintext: &[u8; 16], key: &[u8; 16]) -> (r:
    AESVisualization)
    ensures
        r.plaintext@ == plaintext@,
        r.key@ == key@,
        r.ciphertext@ == aes_cipher_spec(plaintext@, key@),
        r.rounds@.len() == 41,
        forall|idx: int| 0 <= idx < 41 ==> aes_record_ok(#[trigger] r.rounds@[idx], plaintext@,
            key@, idx),
{
    let mut state: [[u8; 4]; 4] = [
        [plaintext[0], plaintext[4], plaintext[8], plaintext[12]],
        [plaintext[1], plaintext[5], plaintext[9], plaintext[13]],
        [plaintext[2], plaintext[6], plaintext[10], plaintext[14]],
        [plaintext[3], plaintext[7], plaintext[11], plaintext[15]],
    ];
    proof {
        assert(sv(state) =~~= load_state_spec(plaintext@));
    }
    let mut rounds: Vec<AESRoundState> = Vec::new();
    let round_keys = key_expansion(key);

    rounds.push(AESRoundState {
        round: 0,
        step: String::from_str("Initial State"),
        state,
        description: String::from_str("Initial plaintext arranged in 4x4 state matrix"),
        intermediate_values: Vec::new(),
    });
    proof {
        assert(aes_record_ok(rounds@[0], plaintext@, key@, 0));
    }

    state = add_round_key(&state, &round_keys[0]);
    rounds.push(AESRoundState {
        round: 0,
        step: String::from_str("AddRoundKey"),
        state,
        description: String::from_str("XOR state with round key 0"),
        intermediate_values: Vec::new(),
    });
    proof {
        assert(aes_record_ok(rounds@[1], plaintext@, key@, 1));
    }

    let mut round: u32 = 1;
    while round < 10
        invariant
            1 <= round <= 10,
            round_keys@.len() == 11,
            forall|t: int| 0 <= t < 11 ==> sv(#[trigger] round_keys@[t]) =~~= round_key_spec(
                key@, t),
            sv(state) =~~= rounds_state_spec(plaintext@, key@, (round - 1) as nat),
            rounds@.len() == 2 + 4 * (round - 1),
            forall|idx: int| 0 <= idx < rounds@.len() ==> aes_record_ok(#[trigger] rounds@[idx],
                plaintext@, key@, idx),
        decreases 10 - round,
    {
        state = sub_bytes(&state);
        rounds.push(AESRoundState {
            round,
            step: String::from_str("SubBytes"),
            state,
            description: String::from_str("Substitute bytes using S-box"),
            intermediate_values: one_note("Each byte replaced by S-box lookup"),
        });
        proof {
            lemma_stage_index(round as int, 0);
            assert(aes_record_ok(rounds@[rounds@.len() - 1], plaintext@, key@,
                2 + 4 * (round - 1)));
        }

        state = shift_rows(&state);
        rounds.push(AESRoundState {
            round,
            step: String::from_str("ShiftRows"),
            state,
            description: String::from_str("Cyclically shift rows left"),
            intermediate_values: one_note("Row 0: no shift, Row 1: 1 left, Row 2: 2 left, Row 3: 3 left"),
        });
        proof {
            lemma_stage_index(round as int, 1);
            assert(aes_record_ok(rounds@[rounds@.len() - 1], plaintext@, key@,
                2 + 4 * (round - 1) + 1));
        }

        state = mix_columns(&state);
        rounds.push(AESRoundState {
            round,
            step: String::from_str("MixColumns"),
            state,
            description: String::from_str("Mix columns using GF(2^8) multiplication"),
            intermediate_values: one_note("Each column multiplied by fixed polynomial"),
        });
        proof {
            lemma_stage_index(round as int, 2);
            assert(aes_record_ok(rounds@[rounds@.len() - 1], plaintext@, key@,
                2 + 4 * (round - 1) + 2));
        }

        state = add_round_key(&state, &round_keys[round as usize]);
        rounds.push(AESRoundState {
            round,
            step: String::from_str("AddRoundKey"),
            state,
            description: ark_description(round),
            intermediate_values: Vec::new(),
        });
        proof {
            assert(sv(state) =~~= rounds_state_spec(plaintext@, key@, round as nat));
            lemma_stage_index(round as int, 3);
            assert(aes_record_ok(rounds@[rounds@.len() - 1], plaintext@, key@,
                2 + 4 * (round - 1) + 3));
        }
        round = round + 1;
    }

    state = sub_bytes(&state);
    rounds.push(AESRoundState {
        round: 10,
        step: String::from_str("SubBytes"),
        state,
        description: String::from_str("Final SubBytes"),
        intermediate_values: one_note("Final S-box substitution"),
    });
    proof {
        assert(aes_record_ok(rounds@[38], plaintext@, key@, 38));
    }

    state = shift_rows(&state);
    rounds.push(AESRoundState {
        round: 10,
        step: String::from_str("ShiftRows"),
        state,
        description: String::from_str("Final ShiftRows"),
        intermediate_values: one_note("Final row shifting"),
    });
    proof {
        assert(aes_record_ok(rounds@[39], plaintext@, key@, 39));
    }

    state = add_round_key(&state, &round_keys[10]);
    rounds.push(AESRoundState {
        round: 10,
        step: String::from_str("AddRoundKey"),
        state,
        description: String::from_str("Final AddRoundKey"),
        intermediate_values: Vec::new(),
    });
    proof {
        assert(sv(state) =~~= final_state_spec(plaintext@, key@));
        assert(aes_record_ok(rounds@[40], plaintext@, key@, 40));
    }

    let ciphertext: [u8; 16] = [
        state[0][0], state[1][0], state[2][0], state[3][0],
        state[0][1], state[1][1], state[2][1], state[3][1],
        state[0][2], state[1][2], state[2][2], state[3][2],
        state[0][3], state[1][3], state[2][3], state[3][3],
    ];
    proof {
        assert(ciphertext@ =~= aes_cipher_spec(plaintext@, key@));
    }
    let mut pt_copy: [u8; 16] = [0u8; 16];
    let mut key_copy: [u8; 16] = [0u8; 16];
    let mut t: usize = 0;
    while t < 16
        invariant
            t <= 16,
            forall|k: int| 0 <= k < t ==> pt_copy@[k] == plaintext@[k],
            forall|k: int| 0 <= k < t ==> key_copy@[k] == key@[k],
        decreases 16 - t,
    {
        pt_copy[t] = plaintext[t];
        key_copy[t] = key[t];
        t = t + 1;
    }
    proof {
        assert(pt_copy@ =~= plaintext@);
        assert(key_copy@ =~= key@);
    }
    AESVisualization { plaintext: pt_copy, key: key_copy, ciphertext, rounds }
}

} // verus!
