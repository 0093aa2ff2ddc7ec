//! CRC-32 (IEEE 802.3, reflected) over byte sequences.

use vstd::prelude::*;

verus! {

/// The reflected generator polynomial of CRC-32.
pub const CRC32_POLY: u32 = 0xEDB8_8320;

/// One shift of the CRC register: the low bit leaves, and the polynomial is
/// folded in when that bit was set.
pub open spec fn crc_shift(reg: u32) -> u32 {
    if reg & 1 == 1 {
        (reg >> 1) ^ CRC32_POLY
    } else {
        reg >> 1
    }
}

/// The register after absorbing one byte: the byte is folded into the low
/// eight bits, then the register is shifted eight times.
pub open spec fn crc_absorb(reg: u32, byte: u8) -> u32 {
    crc_shift(crc_shift(crc_shift(crc_shift(
        crc_shift(crc_shift(crc_shift(crc_shift(reg ^ (byte as u32))))),
    ))))
}

/// The register after absorbing all of `bytes`, starting from `reg`.
pub open spec fn crc_fold(reg: u32, bytes: Seq<u8>) -> u32
    decreases bytes.len(),
{
    if bytes.len() == 0 {
        reg
    } else {
        crc_absorb(crc_fold(reg, bytes.drop_last()), bytes.last())
    }
}

/// The CRC-32 checksum of `bytes`: the register starts with all bits set
/// and is inverted at the end.
pub open spec fn spec_crc32(bytes: Seq<u8>) -> u32 {
    crc_fold(0xFFFF_FFFFu32, bytes) ^ 0xFFFF_FFFFu32
}

fn shift_once(reg: u32) -> (out: u32)
    ensures
        out == crc_shift(reg),
{
    if reg & 1 == 1 {
        (reg >> 1) ^ CRC32_POLY
    } else {
        reg >> 1
    }
}

fn absorb(reg: u32, byte: u8) -> (out: u32)
    ensures
        out == crc_absorb(reg, byte),
{
    let mut r: u32 = reg ^ (byte as u32);
    r = shift_once(r);
    r = shift_once(r);
    r = shift_once(r);
    r = shift_once(r);
    r = shift_once(r);
    r = shift_once(r);
    r = shift_once(r);
    r = shift_once(r);
    r
}

/// Computes the CRC-32 checksum of `bytes`.
pub fn crc32(bytes: &[u8]) -> (sum: u32)
    ensures
        sum == spec_crc32(bytes@),
{
    let mut reg: u32 = 0xFFFF_FFFF;
    let mut i: usize = 0;
    while i < bytes.len()
        invariant
            i <= bytes.len(),
            reg == crc_fold(0xFFFF_FFFFu32, bytes@.take(i as int)),
        decreases bytes.len() - i,
    {
        proof {
            assert(bytes@.take(i + 1).drop_last() =~= bytes@.take(i as int));
        }
        reg = absorb(reg, bytes[i]);
        i += 1;
    }
    proof {
        assert(bytes@.take(i as int) =~= bytes@);
    }
    reg ^ 0xFFFF_FFFF
}

/// Absorbing `first` and then `second` is absorbing both at once.
pub proof fn lemma_crc_fold_concat(reg: u32, first: Seq<u8>, second: Seq<u8>)
    ensures
        crc_fold(reg, first + second) == crc_fold(crc_fold(reg, first), second),
    decreases second.len(),
{
    if second.len() == 0 {
        assert(first + second =~= first);
    } else {
        lemma_crc_fold_concat(reg, first, second.drop_last());
        assert((first + second).drop_last() =~= first + second.drop_last());
    }
}

/// One shift of the register loses nothing: different registers stay
/// different.
pub proof fn lemma_crc_shift_injective(a: u32, b: u32)
    requires
        a != b,
    ensures
        crc_shift(a) != crc_shift(b),
{
    let fa = if a & 1 == 1 {
        (a >> 1) ^ 0xEDB8_8320u32
    } else {
        a >> 1
    };
    let fb = if b & 1 == 1 {
        (b >> 1) ^ 0xEDB8_8320u32
    } else {
        b >> 1
    };
    assert(fa != fb) by (bit_vector)
        requires
            a != b,
            fa == if a & 1 == 1 {
                (a >> 1) ^ 0xEDB8_8320u32
            } else {
                a >> 1
            },
            fb == if b & 1 == 1 {
                (b >> 1) ^ 0xEDB8_8320u32
            } else {
                b >> 1
            },
    ;
}

/// Eight shifts of the register lose nothing.
proof fn lemma_crc_shift8_injective(a: u32, b: u32)
    requires
        a != b,
    ensures
        crc_shift(crc_shift(crc_shift(crc_shift(crc_shift(crc_shift(crc_shift(crc_shift(a))))))))
            != crc_shift(
            crc_shift(crc_shift(crc_shift(crc_shift(crc_shift(crc_shift(crc_shift(b))))))),
        ),
{
    let a1 = crc_shift(a);
    let b1 = crc_shift(b);
    lemma_crc_shift_injective(a, b);
    let a2 = crc_shift(a1);
    let b2 = crc_shift(b1);
    lemma_crc_shift_injective(a1, b1);
    let a3 = crc_shift(a2);
    let b3 = crc_shift(b2);
    lemma_crc_shift_injective(a2, b2);
    let a4 = crc_shift(a3);
    let b4 = crc_shift(b3);
    lemma_crc_shift_injective(a3, b3);
    let a5 = crc_shift(a4);
    let b5 = crc_shift(b4);
    lemma_crc_shift_injective(a4, b4);
    let a6 = crc_shift(a5);
    let b6 = crc_shift(b5);
    lemma_crc_shift_injective(a5, b5);
    let a7 = crc_shift(a6);
    let b7 = crc_shift(b6);
    lemma_crc_shift_injective(a6, b6);
    lemma_crc_shift_injective(a7, b7);
}

/// Absorbing the same byte into different registers gives different
/// registers.
pub proof fn lemma_crc_absorb_keeps_difference(a: u32, b: u32, byte: u8)
    requires
        a != b,
    ensures
        crc_absorb(a, byte) != crc_absorb(b, byte),
{
    let x = byte as u32;
    assert(a ^ x != b ^ x) by (bit_vector)
        requires
            a != b,
    ;
    lemma_crc_shift8_injective(a ^ x, b ^ x);
}

/// Absorbing different bytes into the same register gives different
/// registers.
pub proof fn lemma_crc_absorb_tells_bytes(reg: u32, x: u8, y: u8)
    requires
        x != y,
    ensures
        crc_absorb(reg, x) != crc_absorb(reg, y),
{
    let wx = x as u32;
    let wy = y as u32;
    assert(reg ^ wx != reg ^ wy) by (bit_vector)
        requires
            wx != wy,
    ;
    lemma_crc_shift8_injective(reg ^ wx, reg ^ wy);
}

/// Absorbing the same bytes into different registers gives different
/// registers.
pub proof fn lemma_crc_fold_keeps_difference(a: u32, b: u32, bytes: Seq<u8>)
    requires
        a != b,
    ensures
        crc_fold(a, bytes) != crc_fold(b, bytes),
    decreases bytes.len(),
{
    if bytes.len() > 0 {
        lemma_crc_fold_keeps_difference(a, b, bytes.drop_last());
        lemma_crc_absorb_keeps_difference(
            crc_fold(a, bytes.drop_last()),
            crc_fold(b, bytes.drop_last()),
            bytes.last(),
        );
    }
}

/// The checksum tells apart two byte sequences of one length that differ
/// in exactly one byte.
pub proof fn lemma_crc32_detects_one_byte(original: Seq<u8>, changed: Seq<u8>, at: int)
    requires
        original.len() == changed.len(),
        0 <= at < original.len(),
        original[at] != changed[at],
        forall|j: int| 0 <= j < original.len() && j != at ==> original[j] == changed[j],
    ensures
        spec_crc32(original) != spec_crc32(changed),
{
    let seed = 0xFFFF_FFFFu32;
    let n = original.len() as int;
    let head = original.take(at);
    let tail = original.skip(at + 1);
    assert(changed.take(at) =~= head);
    assert(changed.skip(at + 1) =~= tail);
    assert(original =~= head.push(original[at]) + tail);
    assert(changed =~= head.push(changed[at]) + tail);
    lemma_crc_fold_concat(seed, head.push(original[at]), tail);
    lemma_crc_fold_concat(seed, head.push(changed[at]), tail);
    assert(head.push(original[at]).drop_last() =~= head);
    assert(head.push(changed[at]).drop_last() =~= head);
    let mid = crc_fold(seed, head);
    lemma_crc_absorb_tells_bytes(mid, original[at], changed[at]);
    let ra = crc_fold(seed, head.push(original[at]));
    let rb = crc_fold(seed, head.push(changed[at]));
    assert(ra == crc_absorb(mid, original[at]));
    assert(rb == crc_absorb(mid, changed[at]));
    lemma_crc_fold_keeps_difference(ra, rb, tail);
    let fa = crc_fold(ra, tail);
    let fb = crc_fold(rb, tail);
    assert(fa ^ 0xFFFF_FFFFu32 != fb ^ 0xFFFF_FFFFu32) by (bit_vector)
        requires
            fa != fb,
    ;
}

} // verus!
