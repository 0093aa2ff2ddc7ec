//! The 256-bit content hash of the operation chain.
//!
//! A `Hash` is the SHA-256 digest of a byte sequence, kept as its eight
//! 32-bit words. Its byte form is the usual one: the words in order, each
//! with its most significant byte first.

use vstd::prelude::*;
use crate::bytes::{be32, be32_at, push_u32_be, read_u32_be, lemma_be32_round_trip, lemma_be32_at_bytes, lemma_be32_at_local, group_byte_lengths};
use crate::sha256::{digest_state, sha256_state};

verus! {

broadcast use group_byte_lengths;

/// A 256-bit hash value.
#[derive(Clone, Copy, Debug, PartialEq, Eq, Structural)]
pub struct Hash {
    pub w0: u32,
    pub w1: u32,
    pub w2: u32,
    pub w3: u32,
    pub w4: u32,
    pub w5: u32,
    pub w6: u32,
    pub w7: u32,
}

/// Number of bytes in the byte form of a hash.
pub const HASH_LEN: usize = 32;

/// The hash of `bytes`: its SHA-256 digest.
pub open spec fn spec_hash(bytes: Seq<u8>) -> Hash {
    digest_state(bytes)
}

/// The hash of the byte forms of `left` and `right`, one after the other.
pub open spec fn spec_combine(left: Hash, right: Hash) -> Hash {
    spec_hash(left.to_bytes() + right.to_bytes())
}

impl Hash {
    /// The byte form: thirty-two bytes, the words in order, each with its
    /// most significant byte first.
    pub closed spec fn to_bytes(self) -> Seq<u8> {
        be32(self.w0) + be32(self.w1) + be32(self.w2) + be32(self.w3)
            + be32(self.w4) + be32(self.w5) + be32(self.w6) + be32(
            self.w7,
        )
    }

    /// The hash whose byte form is the thirty-two bytes of `bytes` that
    /// start at `at`.
    pub closed spec fn from_bytes_at(bytes: Seq<u8>, at: int) -> Hash {
        Hash {
            w0: be32_at(bytes, at),
            w1: be32_at(bytes, at + 4),
            w2: be32_at(bytes, at + 8),
            w3: be32_at(bytes, at + 12),
            w4: be32_at(bytes, at + 16),
            w5: be32_at(bytes, at + 20),
            w6: be32_at(bytes, at + 24),
            w7: be32_at(bytes, at + 28),
        }
    }

    /// The all-zero hash, which seeds every chain and is the root of the
    /// empty tree.
    pub open spec fn spec_zero() -> Hash {
        Hash { w0: 0, w1: 0, w2: 0, w3: 0, w4: 0, w5: 0, w6: 0, w7: 0 }
    }

    /// Bytewise order: whether the byte form of `self` comes strictly before
    /// that of `other`.
    pub open spec fn spec_lt(self, other: Hash) -> bool {
        let a = self.to_bytes();
        let b = other.to_bytes();
        exists|i: int|
            0 <= i < 32 && #[trigger] a[i] < b[i] && forall|j: int| 0 <= j < i ==> a[j] == b[j]
    }

    /// The all-zero hash.
    pub fn zero() -> (h: Hash)
        ensures
            h == Hash::spec_zero(),
    {
        Hash { w0: 0, w1: 0, w2: 0, w3: 0, w4: 0, w5: 0, w6: 0, w7: 0 }
    }

    /// Appends the byte form of the hash to `out`.
    pub fn write_bytes(&self, out: &mut Vec<u8>)
        ensures
            final(out)@ == old(out)@ + self.to_bytes(),
    {
        let ghost before = out@;
        push_u32_be(out, self.w0);
        push_u32_be(out, self.w1);
        push_u32_be(out, self.w2);
        push_u32_be(out, self.w3);
        push_u32_be(out, self.w4);
        push_u32_be(out, self.w5);
        push_u32_be(out, self.w6);
        push_u32_be(out, self.w7);
        proof {
        }
        assert(out@ =~= before + self.to_bytes());
    }

    /// The byte form of the hash.
    pub fn bytes(&self) -> (out: Vec<u8>)
        ensures
            out@ == self.to_bytes(),
    {
        let mut out: Vec<u8> = Vec::new();
        self.write_bytes(&mut out);
        assert(out@ =~= self.to_bytes());
        out
    }

    /// The sixty-four hexadecimal digits of the byte form, as ASCII
    /// characters.
    pub fn hex_digits(&self) -> (digits: Vec<u8>)
        ensures
            digits@ == spec_hex(self.to_bytes()),
            digits@.len() == 64,
    {
        let bytes = self.bytes();
        to_hex(bytes.as_slice())
    }

    /// Reads a hash from the thirty-two bytes of `bytes` that start at `at`.
    pub fn read_bytes(bytes: &[u8], at: usize) -> (h: Hash)
        requires
            at + 32 <= bytes@.len(),
        ensures
            h == Hash::from_bytes_at(bytes@, at as int),
    {
        let len = bytes.len();
        assert(at + 32 <= len);
        Hash {
            w0: read_u32_be(bytes, at),
            w1: read_u32_be(bytes, at + 4),
            w2: read_u32_be(bytes, at + 8),
            w3: read_u32_be(bytes, at + 12),
            w4: read_u32_be(bytes, at + 16),
            w5: read_u32_be(bytes, at + 20),
            w6: read_u32_be(bytes, at + 24),
            w7: read_u32_be(bytes, at + 28),
        }
    }

    /// Reads a hash from its byte form; `None` unless `bytes` holds exactly
    /// thirty-two bytes.
    pub fn from_bytes(bytes: &[u8]) -> (h: Option<Hash>)
        ensures
            h is Some <==> bytes@.len() == 32,
            h is Some ==> h->0.to_bytes() == bytes@,
            h is Some ==> h->0 == Hash::from_bytes_at(bytes@, 0),
    {
        if bytes.len() != 32 {
            return None;
        }
        let h = Hash::read_bytes(bytes, 0);
        proof {
            Hash::lemma_from_to_bytes(bytes@, 0);
            assert(bytes@.subrange(0, 32) =~= bytes@);
        }
        Some(h)
    }

    /// Bytewise order: whether `self` comes strictly before `other`.
    pub fn precedes(&self, other: &Hash) -> (before: bool)
        ensures
            before == self.spec_lt(*other),
    {
        let a = self.bytes();
        let b = other.bytes();
        proof {
        }
        let mut i: usize = 0;
        while i < 32
            invariant
                i <= 32,
                a@ == self.to_bytes(),
                b@ == other.to_bytes(),
                a@.len() == 32,
                b@.len() == 32,
                forall|j: int| 0 <= j < i ==> a@[j] == b@[j],
            decreases 32 - i,
        {
            if a[i] < b[i] {
                return true;
            }
            if a[i] > b[i] {
                proof {
                    let sa = self.to_bytes();
                    let sb = other.to_bytes();
                    assert forall|k: int|
                        !(0 <= k < 32 && #[trigger] sa[k] < sb[k] && forall|j: int|
                            0 <= j < k ==> sa[j] == sb[j]) by {
                        if 0 <= k < 32 && sa[k] < sb[k] {
                            if k < i {
                            } else if k > i {
                                assert(sa[i as int] != sb[i as int]);
                            }
                        }
                    }
                }
                return false;
            }
            i += 1;
        }
        false
    }

    /// The byte form has thirty-two bytes.
    pub broadcast proof fn lemma_to_bytes_len(h: Hash)
        ensures
            #[trigger] h.to_bytes().len() == 32,
    {
    }

    /// A hash is read back from wherever its bytes stand.
    pub proof fn lemma_from_bytes_embedded(bytes: Seq<u8>, at: int, h: Hash)
        requires
            0 <= at,
            at + 32 <= bytes.len(),
            bytes.subrange(at, at + 32) == h.to_bytes(),
        ensures
            Hash::from_bytes_at(bytes, at) == h,
    {
        Hash::lemma_to_from_bytes(h);
        let part = bytes.subrange(at, at + 32);
        assert(part.subrange(0, 32) =~= part);
        Hash::lemma_from_bytes_local(bytes, at, part, 0);
    }

    /// What is read at a place depends on the bytes found there alone.
    pub proof fn lemma_from_bytes_local(a: Seq<u8>, i: int, b: Seq<u8>, j: int)
        requires
            0 <= i,
            i + 32 <= a.len(),
            0 <= j,
            j + 32 <= b.len(),
            a.subrange(i, i + 32) == b.subrange(j, j + 32),
        ensures
            Hash::from_bytes_at(a, i) == Hash::from_bytes_at(b, j),
    {
        let x = a.subrange(i, i + 32);
        let y = b.subrange(j, j + 32);
        assert(a.subrange(i + 0, i + 0 + 4) =~= x.subrange(0, 4));
        assert(b.subrange(j + 0, j + 0 + 4) =~= y.subrange(0, 4));
        assert(a.subrange(i + 4, i + 4 + 4) =~= x.subrange(4, 8));
        assert(b.subrange(j + 4, j + 4 + 4) =~= y.subrange(4, 8));
        assert(a.subrange(i + 8, i + 8 + 4) =~= x.subrange(8, 12));
        assert(b.subrange(j + 8, j + 8 + 4) =~= y.subrange(8, 12));
        assert(a.subrange(i + 12, i + 12 + 4) =~= x.subrange(12, 16));
        assert(b.subrange(j + 12, j + 12 + 4) =~= y.subrange(12, 16));
        assert(a.subrange(i + 16, i + 16 + 4) =~= x.subrange(16, 20));
        assert(b.subrange(j + 16, j + 16 + 4) =~= y.subrange(16, 20));
        assert(a.subrange(i + 20, i + 20 + 4) =~= x.subrange(20, 24));
        assert(b.subrange(j + 20, j + 20 + 4) =~= y.subrange(20, 24));
        assert(a.subrange(i + 24, i + 24 + 4) =~= x.subrange(24, 28));
        assert(b.subrange(j + 24, j + 24 + 4) =~= y.subrange(24, 28));
        assert(a.subrange(i + 28, i + 28 + 4) =~= x.subrange(28, 32));
        assert(b.subrange(j + 28, j + 28 + 4) =~= y.subrange(28, 32));
        lemma_be32_at_local(a, i, b, j);
        lemma_be32_at_local(a, i + 4, b, j + 4);
        lemma_be32_at_local(a, i + 8, b, j + 8);
        lemma_be32_at_local(a, i + 12, b, j + 12);
        lemma_be32_at_local(a, i + 16, b, j + 16);
        lemma_be32_at_local(a, i + 20, b, j + 20);
        lemma_be32_at_local(a, i + 24, b, j + 24);
        lemma_be32_at_local(a, i + 28, b, j + 28);
    }

    /// Reading back the byte form of a hash gives the hash: no two hashes
    /// share a byte form.
    pub proof fn lemma_to_from_bytes(h: Hash)
        ensures
            h.to_bytes().len() == 32,
            Hash::from_bytes_at(h.to_bytes(), 0) == h,
    {
        let b = h.to_bytes();
        assert(b.subrange(0, 4) =~= be32(h.w0).subrange(0, 4));
        assert(b.subrange(4, 8) =~= be32(h.w1).subrange(0, 4));
        assert(b.subrange(8, 12) =~= be32(h.w2).subrange(0, 4));
        assert(b.subrange(12, 16) =~= be32(h.w3).subrange(0, 4));
        assert(b.subrange(16, 20) =~= be32(h.w4).subrange(0, 4));
        assert(b.subrange(20, 24) =~= be32(h.w5).subrange(0, 4));
        assert(b.subrange(24, 28) =~= be32(h.w6).subrange(0, 4));
        assert(b.subrange(28, 32) =~= be32(h.w7).subrange(0, 4));
        lemma_be32_at_local(b, 0, be32(h.w0), 0);
        lemma_be32_at_local(b, 4, be32(h.w1), 0);
        lemma_be32_at_local(b, 8, be32(h.w2), 0);
        lemma_be32_at_local(b, 12, be32(h.w3), 0);
        lemma_be32_at_local(b, 16, be32(h.w4), 0);
        lemma_be32_at_local(b, 20, be32(h.w5), 0);
        lemma_be32_at_local(b, 24, be32(h.w6), 0);
        lemma_be32_at_local(b, 28, be32(h.w7), 0);
        lemma_be32_round_trip(h.w0);
        lemma_be32_round_trip(h.w1);
        lemma_be32_round_trip(h.w2);
        lemma_be32_round_trip(h.w3);
        lemma_be32_round_trip(h.w4);
        lemma_be32_round_trip(h.w5);
        lemma_be32_round_trip(h.w6);
        lemma_be32_round_trip(h.w7);
    }

    /// The byte form of the hash read at `at` is the thirty-two bytes found
    /// there.
    pub proof fn lemma_from_to_bytes(bytes: Seq<u8>, at: int)
        requires
            0 <= at,
            at + 32 <= bytes.len(),
        ensures
            Hash::from_bytes_at(bytes, at).to_bytes() == bytes.subrange(at, at + 32),
    {
        let h = Hash::from_bytes_at(bytes, at);
        lemma_be32_at_bytes(bytes, at);
        lemma_be32_at_bytes(bytes, at + 4);
        lemma_be32_at_bytes(bytes, at + 8);
        lemma_be32_at_bytes(bytes, at + 12);
        lemma_be32_at_bytes(bytes, at + 16);
        lemma_be32_at_bytes(bytes, at + 20);
        lemma_be32_at_bytes(bytes, at + 24);
        lemma_be32_at_bytes(bytes, at + 28);
        assert(h.to_bytes() =~= bytes.subrange(at, at + 32));
    }
}

/// The lower-case hexadecimal digit of a value below sixteen, as an ASCII
/// character.
pub open spec fn spec_hex_digit(nibble: u8) -> u8 {
    if nibble < 10 {
        (48 + nibble) as u8
    } else {
        (87 + nibble) as u8
    }
}

/// The hexadecimal form of `bytes`: two digits for every byte, the high one
/// first.
pub open spec fn spec_hex(bytes: Seq<u8>) -> Seq<u8> {
    Seq::new(
        2 * bytes.len(),
        |i: int|
            if i % 2 == 0 {
                spec_hex_digit(bytes[i / 2] / 16)
            } else {
                spec_hex_digit(bytes[i / 2] % 16)
            },
    )
}

fn hex_digit(nibble: u8) -> (digit: u8)
    requires
        nibble < 16,
    ensures
        digit == spec_hex_digit(nibble),
{
    if nibble < 10 {
        48 + nibble
    } else {
        87 + nibble
    }
}

/// The hexadecimal form of `bytes`, as ASCII characters.
pub fn to_hex(bytes: &[u8]) -> (digits: Vec<u8>)
    ensures
        digits@ == spec_hex(bytes@),
{
    let n = bytes.len();
    let mut digits: Vec<u8> = Vec::new();
    let mut i: usize = 0;
    while i < n
        invariant
            i <= n,
            n == bytes@.len(),
            digits@ == spec_hex(bytes@.take(i as int)),
        decreases n - i,
    {
        let byte = bytes[i];
        digits.push(hex_digit(byte / 16));
        digits.push(hex_digit(byte % 16));
        assert(digits@ =~= spec_hex(bytes@.take(i + 1)));
        i += 1;
    }
    assert(bytes@.take(n as int) =~= bytes@);
    digits
}

/// Computes the hash of `bytes`.
pub fn hash(bytes: &[u8]) -> (h: Hash)
    ensures
        h == spec_hash(bytes@),
{
    sha256_state(bytes)
}

/// Computes the hash of the byte forms of `left` and `right`, one after the
/// other.
pub fn combine(left: &Hash, right: &Hash) -> (h: Hash)
    ensures
        h == spec_combine(*left, *right),
{
    let mut buf: Vec<u8> = Vec::new();
    left.write_bytes(&mut buf);
    right.write_bytes(&mut buf);
    assert(buf@ =~= left.to_bytes() + right.to_bytes());
    hash(buf.as_slice())
}

} // verus!
