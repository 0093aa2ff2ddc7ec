//! Integers in byte sequences.
//!
//! Every integer field that is hashed or stored is written with its least
//! significant byte first, whatever the machine. The words of a hash are
//! written the other way round, most significant byte first, as is usual for
//! digests.

use vstd::prelude::*;

verus! {

/// The four bytes of `x`, least significant first.
pub closed spec fn le32(x: u32) -> Seq<u8> {
    seq![
        (x & 0xff) as u8,
        ((x >> 8) & 0xff) as u8,
        ((x >> 16) & 0xff) as u8,
        ((x >> 24) & 0xff) as u8,
    ]
}

/// The value whose four bytes, least significant first, start at `at`.
pub closed spec fn le32_at(bytes: Seq<u8>, at: int) -> u32 {
    (bytes[at] as u32) | ((bytes[at + 1] as u32) << 8) | ((bytes[at + 2] as u32) << 16) | ((bytes[at
        + 3] as u32) << 24)
}

/// The eight bytes of `x`, least significant first.
pub closed spec fn le64(x: u64) -> Seq<u8> {
    seq![
        (x & 0xff) as u8,
        ((x >> 8) & 0xff) as u8,
        ((x >> 16) & 0xff) as u8,
        ((x >> 24) & 0xff) as u8,
        ((x >> 32) & 0xff) as u8,
        ((x >> 40) & 0xff) as u8,
        ((x >> 48) & 0xff) as u8,
        ((x >> 56) & 0xff) as u8,
    ]
}

/// The value whose eight bytes, least significant first, start at `at`.
pub closed spec fn le64_at(bytes: Seq<u8>, at: int) -> u64 {
    (bytes[at] as u64) | ((bytes[at + 1] as u64) << 8) | ((bytes[at + 2] as u64) << 16) | ((bytes[at
        + 3] as u64) << 24) | ((bytes[at + 4] as u64) << 32) | ((bytes[at + 5] as u64) << 40) | ((
    bytes[at + 6] as u64) << 48) | ((bytes[at + 7] as u64) << 56)
}

/// Reading back the bytes of a 32-bit value gives the value.
pub proof fn lemma_le32_round_trip(x: u32)
    ensures
        le32(x).len() == 4,
        le32_at(le32(x), 0) == x,
{
    let b0 = (x & 0xff) as u8;
    let b1 = ((x >> 8) & 0xff) as u8;
    let b2 = ((x >> 16) & 0xff) as u8;
    let b3 = ((x >> 24) & 0xff) as u8;
    assert((b0 as u32) | ((b1 as u32) << 8) | ((b2 as u32) << 16) | ((b3 as u32) << 24) == x)
        by (bit_vector)
        requires
            b0 == (x & 0xff) as u8,
            b1 == ((x >> 8) & 0xff) as u8,
            b2 == ((x >> 16) & 0xff) as u8,
            b3 == ((x >> 24) & 0xff) as u8,
    ;
}

/// The bytes of the 32-bit value read at `at` are the four bytes found
/// there.
pub proof fn lemma_le32_at_bytes(bytes: Seq<u8>, at: int)
    requires
        0 <= at,
        at + 4 <= bytes.len(),
    ensures
        le32(le32_at(bytes, at)) == bytes.subrange(at, at + 4),
{
    let b0 = bytes[at];
    let b1 = bytes[at + 1];
    let b2 = bytes[at + 2];
    let b3 = bytes[at + 3];
    let x = le32_at(bytes, at);
    assert((x & 0xff) as u8 == b0 && ((x >> 8) & 0xff) as u8 == b1 && ((x >> 16) & 0xff) as u8 == b2
        && ((x >> 24) & 0xff) as u8 == b3) by (bit_vector)
        requires
            x == (b0 as u32) | ((b1 as u32) << 8) | ((b2 as u32) << 16) | ((b3 as u32) << 24),
    ;
    assert(le32(x) =~= bytes.subrange(at, at + 4));
}

/// Reading back the bytes of a 64-bit value gives the value.
pub proof fn lemma_le64_round_trip(x: u64)
    ensures
        le64(x).len() == 8,
        le64_at(le64(x), 0) == x,
{
    let b0 = (x & 0xff) as u8;
    let b1 = ((x >> 8) & 0xff) as u8;
    let b2 = ((x >> 16) & 0xff) as u8;
    let b3 = ((x >> 24) & 0xff) as u8;
    let b4 = ((x >> 32) & 0xff) as u8;
    let b5 = ((x >> 40) & 0xff) as u8;
    let b6 = ((x >> 48) & 0xff) as u8;
    let b7 = ((x >> 56) & 0xff) as u8;
    assert((b0 as u64) | ((b1 as u64) << 8) | ((b2 as u64) << 16) | ((b3 as u64) << 24) | ((
    b4 as u64) << 32) | ((b5 as u64) << 40) | ((b6 as u64) << 48) | ((b7 as u64) << 56) == x)
        by (bit_vector)
        requires
            b0 == (x & 0xff) as u8,
            b1 == ((x >> 8) & 0xff) as u8,
            b2 == ((x >> 16) & 0xff) as u8,
            b3 == ((x >> 24) & 0xff) as u8,
            b4 == ((x >> 32) & 0xff) as u8,
            b5 == ((x >> 40) & 0xff) as u8,
            b6 == ((x >> 48) & 0xff) as u8,
            b7 == ((x >> 56) & 0xff) as u8,
    ;
}

/// The bytes of the 64-bit value read at `at` are the eight bytes found
/// there.
pub proof fn lemma_le64_at_bytes(bytes: Seq<u8>, at: int)
    requires
        0 <= at,
        at + 8 <= bytes.len(),
    ensures
        le64(le64_at(bytes, at)) == bytes.subrange(at, at + 8),
{
    let b0 = bytes[at];
    let b1 = bytes[at + 1];
    let b2 = bytes[at + 2];
    let b3 = bytes[at + 3];
    let b4 = bytes[at + 4];
    let b5 = bytes[at + 5];
    let b6 = bytes[at + 6];
    let b7 = bytes[at + 7];
    let x = le64_at(bytes, at);
    assert((x & 0xff) as u8 == b0 && ((x >> 8) & 0xff) as u8 == b1 && ((x >> 16) & 0xff) as u8 == b2
        && ((x >> 24) & 0xff) as u8 == b3 && ((x >> 32) & 0xff) as u8 == b4 && ((x >> 40) & 0xff) as u8
        == b5 && ((x >> 48) & 0xff) as u8 == b6 && ((x >> 56) & 0xff) as u8 == b7) by (bit_vector)
        requires
            x == (b0 as u64) | ((b1 as u64) << 8) | ((b2 as u64) << 16) | ((b3 as u64) << 24) | ((
            b4 as u64) << 32) | ((b5 as u64) << 40) | ((b6 as u64) << 48) | ((b7 as u64) << 56),
    ;
    assert(le64(x) =~= bytes.subrange(at, at + 8));
}

fn byte_of32(x: u32) -> (b: u8)
    ensures
        b == (x & 0xff) as u8,
{
    let m: u32 = x & 0xff;
    assert(m < 256) by (bit_vector)
        requires
            m == x & 0xff,
    ;
    m as u8
}

fn byte_of64(x: u64) -> (b: u8)
    ensures
        b == (x & 0xff) as u8,
{
    let m: u64 = x & 0xff;
    assert(m < 256) by (bit_vector)
        requires
            m == x & 0xff,
    ;
    m as u8
}

/// Appends the four bytes of `x`, least significant first.
pub fn push_u32_le(out: &mut Vec<u8>, x: u32)
    ensures
        final(out)@ == old(out)@ + le32(x),
{
    let ghost before = out@;
    out.push(byte_of32(x));
    out.push(byte_of32(x >> 8));
    out.push(byte_of32(x >> 16));
    out.push(byte_of32(x >> 24));
    assert(out@ =~= before + le32(x));
}

/// Appends the eight bytes of `x`, least significant first.
pub fn push_u64_le(out: &mut Vec<u8>, x: u64)
    ensures
        final(out)@ == old(out)@ + le64(x),
{
    let ghost before = out@;
    out.push(byte_of64(x));
    out.push(byte_of64(x >> 8));
    out.push(byte_of64(x >> 16));
    out.push(byte_of64(x >> 24));
    out.push(byte_of64(x >> 32));
    out.push(byte_of64(x >> 40));
    out.push(byte_of64(x >> 48));
    out.push(byte_of64(x >> 56));
    assert(out@ =~= before + le64(x));
}

/// Reads the 32-bit value whose bytes, least significant first, start at
/// `at`.
pub fn read_u32_le(bytes: &[u8], at: usize) -> (x: u32)
    requires
        at + 4 <= bytes@.len(),
    ensures
        x == le32_at(bytes@, at as int),
{
    let len = bytes.len();
    assert(at + 4 <= len);
    (bytes[at] as u32) | ((bytes[at + 1] as u32) << 8) | ((bytes[at + 2] as u32) << 16) | ((bytes[at
        + 3] as u32) << 24)
}

/// Reads the 64-bit value whose bytes, least significant first, start at
/// `at`.
pub fn read_u64_le(bytes: &[u8], at: usize) -> (x: u64)
    requires
        at + 8 <= bytes@.len(),
    ensures
        x == le64_at(bytes@, at as int),
{
    let len = bytes.len();
    assert(at + 8 <= len);
    (bytes[at] as u64) | ((bytes[at + 1] as u64) << 8) | ((bytes[at + 2] as u64) << 16) | ((bytes[at
        + 3] as u64) << 24) | ((bytes[at + 4] as u64) << 32) | ((bytes[at + 5] as u64) << 40) | ((
    bytes[at + 6] as u64) << 48) | ((bytes[at + 7] as u64) << 56)
}

/// Appends all of `src` to `out`.
pub fn push_all(out: &mut Vec<u8>, src: &[u8])
    ensures
        final(out)@ == old(out)@ + src@,
{
    let ghost before = out@;
    let len = src.len();
    let mut i: usize = 0;
    while i < len
        invariant
            i <= len,
            len == src@.len(),
            out@ == before + src@.take(i as int),
        decreases len - i,
    {
        out.push(src[i]);
        assert(out@ =~= before + src@.take(i + 1));
        i += 1;
    }
    assert(src@.take(len as int) =~= src@);
}

/// The four bytes of `w`, most significant first.
pub closed spec fn be32(w: u32) -> Seq<u8> {
    seq![
        ((w >> 24) & 0xff) as u8,
        ((w >> 16) & 0xff) as u8,
        ((w >> 8) & 0xff) as u8,
        (w & 0xff) as u8,
    ]
}

/// The value whose four bytes, most significant first, start at `at`.
pub closed spec fn be32_at(bytes: Seq<u8>, at: int) -> u32 {
    ((bytes[at] as u32) << 24) | ((bytes[at + 1] as u32) << 16) | ((bytes[at + 2] as u32) << 8) | (
    bytes[at + 3] as u32)
}

/// Reading back the big-endian bytes of a word gives the word.
pub proof fn lemma_be32_round_trip(w: u32)
    ensures
        be32(w).len() == 4,
        be32_at(be32(w), 0) == w,
{
    let b0 = ((w >> 24) & 0xff) as u8;
    let b1 = ((w >> 16) & 0xff) as u8;
    let b2 = ((w >> 8) & 0xff) as u8;
    let b3 = (w & 0xff) as u8;
    assert(((b0 as u32) << 24) | ((b1 as u32) << 16) | ((b2 as u32) << 8) | (b3 as u32) == w)
        by (bit_vector)
        requires
            b0 == ((w >> 24) & 0xff) as u8,
            b1 == ((w >> 16) & 0xff) as u8,
            b2 == ((w >> 8) & 0xff) as u8,
            b3 == (w & 0xff) as u8,
    ;
}

/// The big-endian bytes of the word read at `at` are the four bytes found
/// there.
pub proof fn lemma_be32_at_bytes(bytes: Seq<u8>, at: int)
    requires
        0 <= at,
        at + 4 <= bytes.len(),
    ensures
        be32(be32_at(bytes, at)) == bytes.subrange(at, at + 4),
{
    let b0 = bytes[at];
    let b1 = bytes[at + 1];
    let b2 = bytes[at + 2];
    let b3 = bytes[at + 3];
    let w = be32_at(bytes, at);
    assert(((w >> 24) & 0xff) as u8 == b0 && ((w >> 16) & 0xff) as u8 == b1 && ((w >> 8) & 0xff) as u8
        == b2 && (w & 0xff) as u8 == b3) by (bit_vector)
        requires
            w == ((b0 as u32) << 24) | ((b1 as u32) << 16) | ((b2 as u32) << 8) | (b3 as u32),
    ;
    assert(be32(w) =~= bytes.subrange(at, at + 4));
}

/// What is read at a place depends on the bytes found there alone.
pub proof fn lemma_be32_at_local(a: Seq<u8>, i: int, b: Seq<u8>, j: int)
    requires
        0 <= i,
        i + 4 <= a.len(),
        0 <= j,
        j + 4 <= b.len(),
        a.subrange(i, i + 4) == b.subrange(j, j + 4),
    ensures
        be32_at(a, i) == be32_at(b, j),
{
    let x = a.subrange(i, i + 4);
    let y = b.subrange(j, j + 4);
    assert(a[i] == x[0] && a[i + 1] == x[1] && a[i + 2] == x[2] && a[i + 3] == x[3]);
    assert(b[j] == y[0] && b[j + 1] == y[1] && b[j + 2] == y[2] && b[j + 3] == y[3]);
}

/// What is read at a place depends on the bytes found there alone.
pub proof fn lemma_le32_at_local(a: Seq<u8>, i: int, b: Seq<u8>, j: int)
    requires
        0 <= i,
        i + 4 <= a.len(),
        0 <= j,
        j + 4 <= b.len(),
        a.subrange(i, i + 4) == b.subrange(j, j + 4),
    ensures
        le32_at(a, i) == le32_at(b, j),
{
    let x = a.subrange(i, i + 4);
    let y = b.subrange(j, j + 4);
    assert(a[i] == x[0] && a[i + 1] == x[1] && a[i + 2] == x[2] && a[i + 3] == x[3]);
    assert(b[j] == y[0] && b[j + 1] == y[1] && b[j + 2] == y[2] && b[j + 3] == y[3]);
}

/// What is read at a place depends on the bytes found there alone.
pub proof fn lemma_le64_at_local(a: Seq<u8>, i: int, b: Seq<u8>, j: int)
    requires
        0 <= i,
        i + 8 <= a.len(),
        0 <= j,
        j + 8 <= b.len(),
        a.subrange(i, i + 8) == b.subrange(j, j + 8),
    ensures
        le64_at(a, i) == le64_at(b, j),
{
    let x = a.subrange(i, i + 8);
    let y = b.subrange(j, j + 8);
    assert(a[i] == x[0] && a[i + 1] == x[1] && a[i + 2] == x[2] && a[i + 3] == x[3]);
    assert(a[i + 4] == x[4] && a[i + 5] == x[5] && a[i + 6] == x[6] && a[i + 7] == x[7]);
    assert(b[j] == y[0] && b[j + 1] == y[1] && b[j + 2] == y[2] && b[j + 3] == y[3]);
    assert(b[j + 4] == y[4] && b[j + 5] == y[5] && b[j + 6] == y[6] && b[j + 7] == y[7]);
}

/// The byte form of a 32-bit value has four bytes.
pub broadcast proof fn lemma_le32_len(x: u32)
    ensures
        #[trigger] le32(x).len() == 4,
{
}

/// The byte form of a 64-bit value has eight bytes.
pub broadcast proof fn lemma_le64_len(x: u64)
    ensures
        #[trigger] le64(x).len() == 8,
{
}

/// The byte form of a word has four bytes.
pub broadcast proof fn lemma_be32_len(w: u32)
    ensures
        #[trigger] be32(w).len() == 4,
{
}

pub broadcast group group_byte_lengths {
    lemma_le32_len,
    lemma_le64_len,
    lemma_be32_len,
}

/// A 32-bit value is read back from wherever its bytes stand.
pub proof fn lemma_le32_embedded(bytes: Seq<u8>, at: int, x: u32)
    requires
        0 <= at,
        at + 4 <= bytes.len(),
        bytes.subrange(at, at + 4) == le32(x),
    ensures
        le32_at(bytes, at) == x,
{
    lemma_le32_round_trip(x);
    let part = bytes.subrange(at, at + 4);
    assert(part.subrange(0, 4) =~= part);
    lemma_le32_at_local(bytes, at, part, 0);
}

/// A 64-bit value is read back from wherever its bytes stand.
pub proof fn lemma_le64_embedded(bytes: Seq<u8>, at: int, x: u64)
    requires
        0 <= at,
        at + 8 <= bytes.len(),
        bytes.subrange(at, at + 8) == le64(x),
    ensures
        le64_at(bytes, at) == x,
{
    lemma_le64_round_trip(x);
    let part = bytes.subrange(at, at + 8);
    assert(part.subrange(0, 8) =~= part);
    lemma_le64_at_local(bytes, at, part, 0);
}

/// Appends the four bytes of `w`, most significant first.
pub fn push_u32_be(out: &mut Vec<u8>, w: u32)
    ensures
        final(out)@ == old(out)@ + be32(w),
{
    let ghost before = out@;
    out.push(byte_of32(w >> 24));
    out.push(byte_of32(w >> 16));
    out.push(byte_of32(w >> 8));
    out.push(byte_of32(w));
    assert(out@ =~= before + be32(w));
}

/// Reads the word whose bytes, most significant first, start at `at`.
pub fn read_u32_be(bytes: &[u8], at: usize) -> (w: u32)
    requires
        at + 4 <= bytes@.len(),
    ensures
        w == be32_at(bytes@, at as int),
{
    let len = bytes.len();
    assert(at + 4 <= len);
    ((bytes[at] as u32) << 24) | ((bytes[at + 1] as u32) << 16) | ((bytes[at + 2] as u32) << 8) | (
    bytes[at + 3] as u32)
}

} // verus!
