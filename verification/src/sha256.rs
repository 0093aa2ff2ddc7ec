//! SHA-256 (FIPS 180-4) over byte sequences.
//!
//! The specification follows the standard: the message is padded to a
//! multiple of sixty-four bytes, and each block is folded into the chaining
//! state by the compression function. The executable code computes the same
//! state with a message schedule held in an array.

use vstd::prelude::*;
use crate::hash;
use crate::bytes::{be32_at, read_u32_be, lemma_be32_at_local};

verus! {

/// The sixty-four round constants.
pub const ROUND_CONSTANTS: [u32; 64] = [
    0x428a2f98, 0x71374491, 0xb5c0fbcf, 0xe9b5dba5, 0x3956c25b, 0x59f111f1, 0x923f82a4, 0xab1c5ed5,
    0xd807aa98, 0x12835b01, 0x243185be, 0x550c7dc3, 0x72be5d74, 0x80deb1fe, 0x9bdc06a7, 0xc19bf174,
    0xe49b69c1, 0xefbe4786, 0x0fc19dc6, 0x240ca1cc, 0x2de92c6f, 0x4a7484aa, 0x5cb0a9dc, 0x76f988da,
    0x983e5152, 0xa831c66d, 0xb00327c8, 0xbf597fc7, 0xc6e00bf3, 0xd5a79147, 0x06ca6351, 0x14292967,
    0x27b70a85, 0x2e1b2138, 0x4d2c6dfc, 0x53380d13, 0x650a7354, 0x766a0abb, 0x81c2c92e, 0x92722c85,
    0xa2bfe8a1, 0xa81a664b, 0xc24b8b70, 0xc76c51a3, 0xd192e819, 0xd6990624, 0xf40e3585, 0x106aa070,
    0x19a4c116, 0x1e376c08, 0x2748774c, 0x34b0bcb5, 0x391c0cb3, 0x4ed8aa4a, 0x5b9cca4f, 0x682e6ff3,
    0x748f82ee, 0x78a5636f, 0x84c87814, 0x8cc70208, 0x90befffa, 0xa4506ceb, 0xbef9a3f7, 0xc67178f2,
];

/// Rotates a 32-bit word right by `n` bits, for `0 < n < 32`.
pub open spec fn spec_rotr(x: u32, n: u32) -> u32 {
    (x >> n) | (x << ((32 - n) as u32))
}

/// Addition modulo 2^32.
pub open spec fn add32(x: u32, y: u32) -> u32 {
    ((x + y) % 0x1_0000_0000) as u32
}

/// The choice function: each bit of `y` or `z`, as the bit of `x` says.
pub open spec fn spec_ch(x: u32, y: u32, z: u32) -> u32 {
    (x & y) ^ (!x & z)
}

/// The majority function: each bit as most of `x`, `y` and `z` have it.
pub open spec fn spec_maj(x: u32, y: u32, z: u32) -> u32 {
    (x & y) ^ (x & z) ^ (y & z)
}

/// The first mixing function of the rounds.
pub open spec fn spec_big_sigma0(x: u32) -> u32 {
    spec_rotr(x, 2) ^ spec_rotr(x, 13) ^ spec_rotr(x, 22)
}

/// The second mixing function of the rounds.
pub open spec fn spec_big_sigma1(x: u32) -> u32 {
    spec_rotr(x, 6) ^ spec_rotr(x, 11) ^ spec_rotr(x, 25)
}

/// The first mixing function of the message schedule.
pub open spec fn spec_small_sigma0(x: u32) -> u32 {
    spec_rotr(x, 7) ^ spec_rotr(x, 18) ^ (x >> 3)
}

/// The second mixing function of the message schedule.
pub open spec fn spec_small_sigma1(x: u32) -> u32 {
    spec_rotr(x, 17) ^ spec_rotr(x, 19) ^ (x >> 10)
}

/// The chaining state before the first block.
pub open spec fn initial_state() -> hash::Hash {
    hash::Hash {
        w0: 0x6a09e667,
        w1: 0xbb67ae85,
        w2: 0x3c6ef372,
        w3: 0xa54ff53a,
        w4: 0x510e527f,
        w5: 0x9b05688c,
        w6: 0x1f83d9ab,
        w7: 0x5be0cd19,
    }
}

/// Word `t` of the message schedule of a sixty-four byte block.
pub open spec fn schedule(block: Seq<u8>, t: nat) -> u32
    decreases t,
{
    if t < 16 {
        be32_at(block, 4 * (t as int))
    } else {
        add32(
            add32(
                add32(spec_small_sigma1(schedule(block, (t - 2) as nat)), schedule(block, (t - 7) as nat)),
                spec_small_sigma0(schedule(block, (t - 15) as nat)),
            ),
            schedule(block, (t - 16) as nat),
        )
    }
}

/// One round of the compression function, with round constant `k` and
/// schedule word `w`.
pub open spec fn round(s: hash::Hash, k: u32, w: u32) -> hash::Hash {
    let t1 = add32(add32(add32(add32(s.w7, spec_big_sigma1(s.w4)), spec_ch(s.w4, s.w5, s.w6)), k), w);
    let t2 = add32(spec_big_sigma0(s.w0), spec_maj(s.w0, s.w1, s.w2));
    hash::Hash {
        w0: add32(t1, t2),
        w1: s.w0,
        w2: s.w1,
        w3: s.w2,
        w4: add32(s.w3, t1),
        w5: s.w4,
        w6: s.w5,
        w7: s.w6,
    }
}

/// The working state after the first `t` rounds on `block`.
pub open spec fn rounds(s: hash::Hash, block: Seq<u8>, t: nat) -> hash::Hash
    decreases t,
{
    if t == 0 {
        s
    } else {
        round(
            rounds(s, block, (t - 1) as nat),
            ROUND_CONSTANTS[t - 1],
            schedule(block, (t - 1) as nat),
        )
    }
}

/// The compression function: the chaining state after one more block.
#[verifier::opaque]
pub open spec fn compress(s: hash::Hash, block: Seq<u8>) -> hash::Hash {
    let r = rounds(s, block, 64);
    hash::Hash {
        w0: add32(s.w0, r.w0),
        w1: add32(s.w1, r.w1),
        w2: add32(s.w2, r.w2),
        w3: add32(s.w3, r.w3),
        w4: add32(s.w4, r.w4),
        w5: add32(s.w5, r.w5),
        w6: add32(s.w6, r.w6),
        w7: add32(s.w7, r.w7),
    }
}

/// The chaining state after the first `n` blocks of `data`.
pub open spec fn absorb_blocks(s: hash::Hash, data: Seq<u8>, n: nat) -> hash::Hash
    decreases n,
{
    if n == 0 {
        s
    } else {
        compress(absorb_blocks(s, data, (n - 1) as nat), data.subrange(64 * (n - 1), 64 * (n as int)))
    }
}

/// Number of zero bytes in the padding of a message of `len` bytes.
pub open spec fn padding_zeros(len: nat) -> nat {
    ((119 - (len % 64)) % 64) as nat
}

/// The length of a message of `len` bytes in bits, as the padding holds it.
pub open spec fn message_bits(len: nat) -> u64 {
    ((8 * len) % 0x1_0000_0000_0000_0000) as u64
}

/// The eight bytes of a 64-bit value, most significant first.
pub open spec fn length_bytes(bits: u64) -> Seq<u8> {
    seq![
        ((bits >> 56) & 0xff) as u8,
        ((bits >> 48) & 0xff) as u8,
        ((bits >> 40) & 0xff) as u8,
        ((bits >> 32) & 0xff) as u8,
        ((bits >> 24) & 0xff) as u8,
        ((bits >> 16) & 0xff) as u8,
        ((bits >> 8) & 0xff) as u8,
        (bits & 0xff) as u8,
    ]
}

/// The padded message: the message, the byte `0x80`, zero bytes up to eight
/// short of a multiple of sixty-four, and the message length in bits.
pub open spec fn padded(msg: Seq<u8>) -> Seq<u8> {
    msg + seq![0x80u8] + Seq::new(padding_zeros(msg.len()), |i: int| 0u8) + length_bytes(
        message_bits(msg.len()),
    )
}

/// The SHA-256 digest of `msg`, as its eight words.
#[verifier::opaque]
pub open spec fn digest_state(msg: Seq<u8>) -> hash::Hash {
    let p = padded(msg);
    absorb_blocks(initial_state(), p, p.len() / 64)
}

fn rotr(x: u32, n: u32) -> (r: u32)
    requires
        0 < n < 32,
    ensures
        r == spec_rotr(x, n),
{
    (x >> n) | (x << (32 - n))
}

fn wadd(x: u32, y: u32) -> (r: u32)
    ensures
        r == add32(x, y),
{
    x.wrapping_add(y)
}

fn ch(x: u32, y: u32, z: u32) -> (r: u32)
    ensures
        r == spec_ch(x, y, z),
{
    (x & y) ^ (!x & z)
}

fn maj(x: u32, y: u32, z: u32) -> (r: u32)
    ensures
        r == spec_maj(x, y, z),
{
    (x & y) ^ (x & z) ^ (y & z)
}

fn big_sigma0(x: u32) -> (r: u32)
    ensures
        r == spec_big_sigma0(x),
{
    rotr(x, 2) ^ rotr(x, 13) ^ rotr(x, 22)
}

fn big_sigma1(x: u32) -> (r: u32)
    ensures
        r == spec_big_sigma1(x),
{
    rotr(x, 6) ^ rotr(x, 11) ^ rotr(x, 25)
}

fn small_sigma0(x: u32) -> (r: u32)
    ensures
        r == spec_small_sigma0(x),
{
    rotr(x, 7) ^ rotr(x, 18) ^ (x >> 3)
}

fn small_sigma1(x: u32) -> (r: u32)
    ensures
        r == spec_small_sigma1(x),
{
    rotr(x, 17) ^ rotr(x, 19) ^ (x >> 10)
}

fn round_step(s: hash::Hash, k: u32, w: u32) -> (r: hash::Hash)
    ensures
        r == round(s, k, w),
{
    let t1 = wadd(wadd(wadd(wadd(s.w7, big_sigma1(s.w4)), ch(s.w4, s.w5, s.w6)), k), w);
    let t2 = wadd(big_sigma0(s.w0), maj(s.w0, s.w1, s.w2));
    hash::Hash {
        w0: wadd(t1, t2),
        w1: s.w0,
        w2: s.w1,
        w3: s.w2,
        w4: wadd(s.w3, t1),
        w5: s.w4,
        w6: s.w5,
        w7: s.w6,
    }
}

/// The message schedule of the sixty-four bytes of `data` that start at
/// `offset`.
fn message_schedule(data: &[u8], offset: usize) -> (w: [u32; 64])
    requires
        offset + 64 <= data@.len(),
    ensures
        forall|j: int|
            0 <= j < 64 ==> w@[j] == schedule(data@.subrange(offset as int, offset + 64), j as nat),
{
    let ghost block = data@.subrange(offset as int, offset + 64);
    let len = data.len();
    assert(offset + 64 <= len);
    let mut w: [u32; 64] = [0u32; 64];
    let mut t: usize = 0;
    while t < 16
        invariant
            t <= 16,
            offset + 64 <= data@.len(),
            data@.len() <= usize::MAX,
            block == data@.subrange(offset as int, offset + 64),
            forall|j: int| 0 <= j < t ==> w@[j] == schedule(block, j as nat),
        decreases 16 - t,
    {
        let word = read_u32_be(data, offset + 4 * t);
        proof {
            assert(data@.subrange(offset + 4 * t, offset + 4 * t + 4) =~= block.subrange(
                4 * t,
                4 * t + 4,
            ));
            lemma_be32_at_local(data@, offset + 4 * t, block, 4 * t);
        }
        w[t] = word;
        t += 1;
    }
    while t < 64
        invariant
            16 <= t <= 64,
            forall|j: int| 0 <= j < t ==> w@[j] == schedule(block, j as nat),
        decreases 64 - t,
    {
        let word = wadd(
            wadd(wadd(small_sigma1(w[t - 2]), w[t - 7]), small_sigma0(w[t - 15])),
            w[t - 16],
        );
        w[t] = word;
        t += 1;
    }
    w
}

/// Folds the sixty-four bytes of `data` that start at `offset` into the
/// chaining state.
fn compress_block(state: hash::Hash, data: &[u8], offset: usize) -> (next: hash::Hash)
    requires
        offset + 64 <= data@.len(),
    ensures
        next == compress(state, data@.subrange(offset as int, offset + 64)),
{
    let ghost block = data@.subrange(offset as int, offset + 64);
    let w = message_schedule(data, offset);
    let mut s = state;
    let mut r: usize = 0;
    while r < 64
        invariant
            r <= 64,
            forall|j: int| 0 <= j < 64 ==> w@[j] == schedule(block, j as nat),
            s == rounds(state, block, r as nat),
        decreases 64 - r,
    {
        s = round_step(s, ROUND_CONSTANTS[r], w[r]);
        r += 1;
    }
    proof {
        reveal(compress);
    }
    hash::Hash {
        w0: wadd(state.w0, s.w0),
        w1: wadd(state.w1, s.w1),
        w2: wadd(state.w2, s.w2),
        w3: wadd(state.w3, s.w3),
        w4: wadd(state.w4, s.w4),
        w5: wadd(state.w5, s.w5),
        w6: wadd(state.w6, s.w6),
        w7: wadd(state.w7, s.w7),
    }
}

fn length_byte(bits: u64, shift: u64) -> (b: u8)
    requires
        shift < 64,
    ensures
        b == ((bits >> shift) & 0xff) as u8,
{
    let m: u64 = (bits >> shift) & 0xff;
    assert(m < 256) by (bit_vector)
        requires
            m == (bits >> shift) & 0xff,
    ;
    m as u8
}

/// Builds the padded form of `msg`.
fn pad_message(msg: &[u8]) -> (p: Vec<u8>)
    ensures
        p@ == padded(msg@),
        p@.len() % 64 == 0,
{
    let len = msg.len();
    let mut p: Vec<u8> = Vec::new();
    let mut i: usize = 0;
    while i < len
        invariant
            i <= len,
            len == msg@.len(),
            p@ == msg@.take(i as int),
        decreases len - i,
    {
        p.push(msg[i]);
        assert(p@ =~= msg@.take(i + 1));
        i += 1;
    }
    assert(msg@.take(len as int) =~= msg@);
    p.push(0x80);
    let zeros: usize = (119 - (len % 64)) % 64;
    let mut j: usize = 0;
    while j < zeros
        invariant
            j <= zeros,
            p@ == msg@ + seq![0x80u8] + Seq::new(j as nat, |i: int| 0u8),
        decreases zeros - j,
    {
        p.push(0);
        assert(p@ =~= msg@ + seq![0x80u8] + Seq::new((j + 1) as nat, |i: int| 0u8));
        j += 1;
    }
    let bits: u64 = (len as u64).wrapping_mul(8);
    assert(bits == message_bits(msg@.len()));
    let ghost head = p@;
    p.push(length_byte(bits, 56));
    p.push(length_byte(bits, 48));
    p.push(length_byte(bits, 40));
    p.push(length_byte(bits, 32));
    p.push(length_byte(bits, 24));
    p.push(length_byte(bits, 16));
    p.push(length_byte(bits, 8));
    p.push(length_byte(bits, 0));
    assert(bits >> 0 == bits) by (bit_vector);
    assert(p@ =~= head + length_bytes(bits));
    p
}

/// Computes the SHA-256 digest of `msg`, as its eight words.
pub fn sha256_state(msg: &[u8]) -> (digest: hash::Hash)
    ensures
        digest == digest_state(msg@),
{
    proof {
        reveal(digest_state);
    }
    let p = pad_message(msg);
    let blocks: usize = p.len() / 64;
    let mut state = hash::Hash {
        w0: 0x6a09e667,
        w1: 0xbb67ae85,
        w2: 0x3c6ef372,
        w3: 0xa54ff53a,
        w4: 0x510e527f,
        w5: 0x9b05688c,
        w6: 0x1f83d9ab,
        w7: 0x5be0cd19,
    };
    let mut n: usize = 0;
    while n < blocks
        invariant
            n <= blocks,
            blocks == p@.len() / 64,
            p@.len() % 64 == 0,
            p@.len() <= usize::MAX,
            state == absorb_blocks(initial_state(), p@, n as nat),
        decreases blocks - n,
    {
        state = compress_block(state, p.as_slice(), n * 64);
        n += 1;
        assert(p@.subrange(64 * (n - 1), 64 * (n as int)) == p@.subrange((n - 1) * 64, (n - 1) * 64 + 64));
    }
    state
}

} // verus!
