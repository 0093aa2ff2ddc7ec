//! The proof log: an append-only sequence of framed records behind a
//! superblock.
//!
//! The log is kept as the bytes of its image. The first 128 bytes are the
//! superblock, which holds the head offset and the last checkpoint; after it
//! come the records, each framed by its length and the CRC-32 of its bytes.
//! All integers are stored least significant byte first.

use vstd::prelude::*;
use vstd::slice::slice_subrange;
use crate::bytes::{
    le32, le32_at, le64, le64_at, push_u32_le, push_u64_le, push_all, read_u32_le, read_u64_le,
    lemma_le32_at_bytes, lemma_le32_at_local, lemma_le64_at_local, lemma_le32_embedded,
    lemma_le64_embedded, group_byte_lengths,
};
use crate::crc32::{crc32, spec_crc32, lemma_crc32_detects_one_byte};
use crate::hash;
use crate::verification::StorageError;

verus! {

broadcast use {group_byte_lengths, hash::Hash::lemma_to_bytes_len};

/// The first eight bytes of every log image: "VEKOSPRF".
pub const LOG_MAGIC: u64 = 0x5645_4B4F_5350_5246;

/// The version of the log format, which also names the hash algorithm.
pub const LOG_VERSION: u32 = 1;

/// Number of bytes of the superblock.
pub const SUPERBLOCK_LEN: usize = 128;

/// Number of bytes that frame a record: its length and its checksum.
pub const FRAME_HEADER_LEN: usize = 8;

/// `n` zero bytes.
pub open spec fn zeros(n: nat) -> Seq<u8> {
    Seq::new(n, |i: int| 0u8)
}

/// The superblock of a log.
#[derive(Clone, Copy, Debug, PartialEq, Eq, Structural)]
pub struct Superblock {
    /// Version of the format.
    pub version: u32,
    /// Offset just after the last record.
    pub head_offset: u64,
    /// The Merkle root at the last checkpoint.
    pub checkpoint: hash::Hash,
    /// The last operation id that the checkpoint covers.
    pub op_watermark: u64,
}

impl Superblock {
    /// The superblock without its checksum: magic, version, head offset,
    /// checkpoint, watermark, and zero bytes up to 124.
    pub open spec fn spec_body(self) -> Seq<u8> {
        le64(LOG_MAGIC) + le32(self.version) + le64(self.head_offset) + self.checkpoint.to_bytes()
            + le64(self.op_watermark) + zeros(64)
    }

    /// The byte form of the superblock: its body and the CRC-32 of the body.
    pub open spec fn spec_encode(self) -> Seq<u8> {
        self.spec_body() + le32(spec_crc32(self.spec_body()))
    }

    /// The superblock at the start of `bytes`, if the magic, the padding and
    /// the checksum are right.
    pub open spec fn spec_decode(bytes: Seq<u8>) -> Option<Superblock> {
        if bytes.len() >= 128 && le64_at(bytes, 0) == LOG_MAGIC && bytes.subrange(60, 124) == zeros(64)
            && le32_at(bytes, 124) == spec_crc32(bytes.subrange(0, 124)) {
            Some(
                Superblock {
                    version: le32_at(bytes, 8),
                    head_offset: le64_at(bytes, 12),
                    checkpoint: hash::Hash::from_bytes_at(bytes, 20),
                    op_watermark: le64_at(bytes, 52),
                },
            )
        } else {
            None
        }
    }

    /// The byte form of the superblock.
    pub fn encode(&self) -> (out: Vec<u8>)
        ensures
            out@ == self.spec_encode(),
            out@.len() == 128,
    {
        let mut out: Vec<u8> = Vec::new();
        push_u64_le(&mut out, LOG_MAGIC);
        push_u32_le(&mut out, self.version);
        push_u64_le(&mut out, self.head_offset);
        self.checkpoint.write_bytes(&mut out);
        push_u64_le(&mut out, self.op_watermark);
        let mut i: usize = 0;
        while i < 64
            invariant
                i <= 64,
                out@ == le64(LOG_MAGIC) + le32(self.version) + le64(self.head_offset)
                    + self.checkpoint.to_bytes() + le64(self.op_watermark) + zeros(i as nat),
            decreases 64 - i,
        {
            out.push(0);
            assert(out@ =~= le64(LOG_MAGIC) + le32(self.version) + le64(self.head_offset)
                + self.checkpoint.to_bytes() + le64(self.op_watermark) + zeros((i + 1) as nat));
            i += 1;
        }
        let sum = crc32(out.as_slice());
        push_u32_le(&mut out, sum);
        out
    }

    /// Reads the superblock at the start of `bytes`.
    pub fn decode(bytes: &[u8]) -> (sb: Option<Superblock>)
        ensures
            sb == Superblock::spec_decode(bytes@),
    {
        if bytes.len() < 128 {
            return None;
        }
        if read_u64_le(bytes, 0) != LOG_MAGIC {
            return None;
        }
        let mut i: usize = 60;
        while i < 124
            invariant
                60 <= i <= 124,
                bytes@.len() >= 128,
                forall|j: int| 60 <= j < i ==> bytes@[j] == 0u8,
            decreases 124 - i,
        {
            if bytes[i] != 0 {
                assert(bytes@.subrange(60, 124)[i - 60] != zeros(64)[i - 60]);
                return None;
            }
            i += 1;
        }
        assert(bytes@.subrange(60, 124) =~= zeros(64));
        let sum = crc32(slice_subrange(bytes, 0, 124));
        if read_u32_le(bytes, 124) != sum {
            return None;
        }
        Some(
            Superblock {
                version: read_u32_le(bytes, 8),
                head_offset: read_u64_le(bytes, 12),
                checkpoint: hash::Hash::read_bytes(bytes, 20),
                op_watermark: read_u64_le(bytes, 52),
            },
        )
    }

    /// What is read as the superblock depends on the first 128 bytes alone.
    pub proof fn lemma_decode_local(a: Seq<u8>, b: Seq<u8>)
        requires
            a.len() >= 128,
            b.len() >= 128,
            a.subrange(0, 128) == b.subrange(0, 128),
        ensures
            Superblock::spec_decode(a) == Superblock::spec_decode(b),
    {
        let x = a.subrange(0, 128);
        let y = b.subrange(0, 128);
        assert(a.subrange(0, 8) =~= x.subrange(0, 8));
        assert(b.subrange(0, 8) =~= y.subrange(0, 8));
        assert(a.subrange(8, 12) =~= x.subrange(8, 12));
        assert(b.subrange(8, 12) =~= y.subrange(8, 12));
        assert(a.subrange(12, 20) =~= x.subrange(12, 20));
        assert(b.subrange(12, 20) =~= y.subrange(12, 20));
        assert(a.subrange(20, 52) =~= x.subrange(20, 52));
        assert(b.subrange(20, 52) =~= y.subrange(20, 52));
        assert(a.subrange(52, 60) =~= x.subrange(52, 60));
        assert(b.subrange(52, 60) =~= y.subrange(52, 60));
        assert(a.subrange(60, 124) =~= x.subrange(60, 124));
        assert(b.subrange(60, 124) =~= y.subrange(60, 124));
        assert(a.subrange(124, 128) =~= x.subrange(124, 128));
        assert(b.subrange(124, 128) =~= y.subrange(124, 128));
        assert(a.subrange(0, 124) =~= x.subrange(0, 124));
        assert(b.subrange(0, 124) =~= y.subrange(0, 124));
        lemma_le64_at_local(a, 0, b, 0);
        lemma_le32_at_local(a, 8, b, 8);
        lemma_le64_at_local(a, 12, b, 12);
        hash::Hash::lemma_from_bytes_local(a, 20, b, 20);
        lemma_le64_at_local(a, 52, b, 52);
        lemma_le32_at_local(a, 124, b, 124);
    }

    /// Reading back the byte form of a superblock gives the superblock,
    /// whatever follows it.
    pub proof fn lemma_decode_encode(self, rest: Seq<u8>)
        ensures
            self.spec_encode().len() == 128,
            Superblock::spec_decode(self.spec_encode() + rest) == Some(self),
    {
        let body = self.spec_body();
        let bytes = self.spec_encode() + rest;
        assert(bytes.subrange(0, 124) =~= body);
        assert(bytes.subrange(0, 8) =~= le64(LOG_MAGIC));
        assert(bytes.subrange(8, 12) =~= le32(self.version));
        assert(bytes.subrange(12, 20) =~= le64(self.head_offset));
        assert(bytes.subrange(20, 52) =~= self.checkpoint.to_bytes());
        assert(bytes.subrange(52, 60) =~= le64(self.op_watermark));
        assert(bytes.subrange(60, 124) =~= zeros(64));
        assert(bytes.subrange(124, 128) =~= le32(spec_crc32(body)));
        lemma_le64_embedded(bytes, 0, LOG_MAGIC);
        lemma_le32_embedded(bytes, 8, self.version);
        lemma_le64_embedded(bytes, 12, self.head_offset);
        hash::Hash::lemma_from_bytes_embedded(bytes, 20, self.checkpoint);
        lemma_le64_embedded(bytes, 52, self.op_watermark);
        lemma_le32_embedded(bytes, 124, spec_crc32(body));
    }
}

/// A record as the log holds it: the length of its bytes, their CRC-32, and
/// the bytes.
pub open spec fn frame(payload: Seq<u8>) -> Seq<u8> {
    le32(payload.len() as u32) + le32(spec_crc32(payload)) + payload
}

/// The bytes of a log that holds `records`, in order.
pub open spec fn log_bytes(records: Seq<Seq<u8>>) -> Seq<u8>
    decreases records.len(),
{
    if records.len() == 0 {
        Seq::empty()
    } else {
        log_bytes(records.drop_last()) + frame(records.last())
    }
}

/// The bytes of the record whose frame starts at `at` in a log that ends at
/// `head`, if the frame is intact: it lies within the log and its checksum
/// is right.
pub open spec fn frame_payload_at(image: Seq<u8>, at: int, head: int) -> Option<Seq<u8>> {
    let len = le32_at(image, at) as int;
    if 0 <= at && at + 8 <= head && head <= image.len() && at + 8 + len <= head && le32_at(
        image,
        at + 4,
    ) == spec_crc32(image.subrange(at + 8, at + 8 + len)) {
        Some(image.subrange(at + 8, at + 8 + len))
    } else {
        None
    }
}

/// A log of one more record is the log followed by the record's frame.
pub proof fn lemma_log_bytes_push(records: Seq<Seq<u8>>, payload: Seq<u8>)
    ensures
        log_bytes(records.push(payload)) == log_bytes(records) + frame(payload),
        log_bytes(records.push(payload)).len() == log_bytes(records).len() + 8 + payload.len(),
{
    assert(records.push(payload).drop_last() =~= records);
}

/// Every record takes at least the eight bytes of its frame.
pub proof fn lemma_log_bytes_len(records: Seq<Seq<u8>>)
    ensures
        log_bytes(records).len() >= 8 * records.len(),
    decreases records.len(),
{
    if records.len() > 0 {
        lemma_log_bytes_len(records.drop_last());
    }
}

/// The log of the first `n` records is a prefix of the whole log, and
/// record `n` is framed right after it.
pub proof fn lemma_log_bytes_take(records: Seq<Seq<u8>>, n: int)
    requires
        0 <= n < records.len(),
    ensures
        log_bytes(records.take(n)).len() + 8 + records[n].len() <= log_bytes(records).len(),
        log_bytes(records).subrange(
            log_bytes(records.take(n)).len() as int,
            log_bytes(records.take(n)).len() + 8 + records[n].len() as int,
        ) == frame(records[n]),
        log_bytes(records).subrange(0, log_bytes(records.take(n)).len() as int) == log_bytes(
            records.take(n),
        ),
    decreases records.len(),
{
    let init = records.drop_last();
    let whole = log_bytes(records);
    if n == records.len() - 1 {
        assert(records.take(n) =~= init);
        let start = log_bytes(init).len() as int;
        assert(whole.subrange(start, start + 8 + records[n].len()) =~= frame(records[n]));
        assert(whole.subrange(0, start) =~= log_bytes(init));
    } else {
        lemma_log_bytes_take(init, n);
        assert(init.take(n) =~= records.take(n));
        let start = log_bytes(records.take(n)).len() as int;
        let inner = log_bytes(init);
        assert(whole.subrange(start, start + 8 + records[n].len()) =~= inner.subrange(
            start,
            start + 8 + records[n].len(),
        ));
        assert(whole.subrange(0, start) =~= inner.subrange(0, start));
    }
}

/// An intact frame is read back from wherever it stands.
pub proof fn lemma_frame_at_honest(image: Seq<u8>, at: int, head: int, payload: Seq<u8>)
    requires
        0 <= at,
        payload.len() <= u32::MAX,
        at + 8 + payload.len() <= head <= image.len(),
        image.subrange(at, at + 8 + payload.len()) == frame(payload),
    ensures
        frame_payload_at(image, at, head) == Some(payload),
{
    let part = image.subrange(at, at + 8 + payload.len());
    let n = payload.len() as int;
    assert(image.subrange(at, at + 4) =~= part.subrange(0, 4));
    assert(part.subrange(0, 4) =~= le32(n as u32));
    assert(image.subrange(at + 4, at + 8) =~= part.subrange(4, 8));
    assert(part.subrange(4, 8) =~= le32(spec_crc32(payload)));
    assert(image.subrange(at + 8, at + 8 + n) =~= part.subrange(8, 8 + n));
    assert(part.subrange(8, 8 + n) =~= payload);
    lemma_le32_embedded(image, at, n as u32);
    lemma_le32_embedded(image, at + 4, spec_crc32(payload));
}

/// Changing one byte of a frame never leaves an intact frame with the same
/// record: either the frame is no longer intact, or it now claims another
/// length, in which case what it holds agrees with the old record as far as
/// both reach.
pub proof fn lemma_frame_at_tampered(
    image: Seq<u8>,
    changed: Seq<u8>,
    at: int,
    head: int,
    payload: Seq<u8>,
    q: int,
)
    requires
        0 <= at,
        payload.len() <= u32::MAX,
        at + 8 + payload.len() <= head <= image.len(),
        image.subrange(at, at + 8 + payload.len()) == frame(payload),
        changed.len() == image.len(),
        at <= q < at + 8 + payload.len(),
        changed[q] != image[q],
        forall|j: int| 0 <= j < image.len() && j != q ==> changed[j] == image[j],
    ensures
        frame_payload_at(changed, at, head) matches Some(found) ==> {
            &&& found.len() != payload.len()
            &&& forall|i: int|
                0 <= i < found.len() && i < payload.len() ==> #[trigger] found[i] == payload[i]
        },
{
    let n = payload.len() as int;
    lemma_frame_at_honest(image, at, head, payload);
    let old_len = le32_at(image, at);
    let new_len = le32_at(changed, at);
    assert(image.subrange(at + 8, at + 8 + n) == payload);
    if q < at + 4 {
        if new_len == old_len {
            lemma_le32_at_bytes(image, at);
            lemma_le32_at_bytes(changed, at);
            assert(image.subrange(at, at + 4)[q - at] == changed.subrange(at, at + 4)[q - at]);
        }
        if let Some(found) = frame_payload_at(changed, at, head) {
            assert forall|i: int| 0 <= i < found.len() && i < payload.len() implies #[trigger] found[i]
                == payload[i] by {
                assert(found[i] == changed[at + 8 + i]);
                assert(payload[i] == image.subrange(at + 8, at + 8 + n)[i]);
            }
        }
    } else {
        assert(changed.subrange(at, at + 4) =~= image.subrange(at, at + 4));
        lemma_le32_at_local(changed, at, image, at);
        if q < at + 8 {
            assert(changed.subrange(at + 8, at + 8 + n) =~= payload);
            if le32_at(changed, at + 4) == le32_at(image, at + 4) {
                lemma_le32_at_bytes(image, at + 4);
                lemma_le32_at_bytes(changed, at + 4);
                assert(image.subrange(at + 4, at + 8)[q - at - 4] == changed.subrange(
                    at + 4,
                    at + 8,
                )[q - at - 4]);
            }
        } else {
            assert(changed.subrange(at + 4, at + 8) =~= image.subrange(at + 4, at + 8));
            lemma_le32_at_local(changed, at + 4, image, at + 4);
            let found = changed.subrange(at + 8, at + 8 + n);
            assert(found[q - at - 8] != payload[q - at - 8]);
            lemma_crc32_detects_one_byte(payload, found, q - at - 8);
        }
    }
}

/// Looks for an intact frame at `at` in a log that ends at `head`, and
/// returns the range of the record's bytes.
pub fn read_frame(image: &[u8], at: usize, head: usize) -> (range: Option<(usize, usize)>)
    requires
        head <= image@.len(),
    ensures
        match range {
            Some((start, end)) => {
                &&& start == at + 8
                &&& start <= end <= head
                &&& frame_payload_at(image@, at as int, head as int) == Some(
                    image@.subrange(start as int, end as int),
                )
            },
            None => frame_payload_at(image@, at as int, head as int) is None,
        },
{
    if at > head || head - at < 8 {
        return None;
    }
    let len = read_u32_le(image, at) as usize;
    let start = at + 8;
    if head - start < len {
        return None;
    }
    let end = start + len;
    let stored = read_u32_le(image, at + 4);
    let sum = crc32(slice_subrange(image, start, end));
    if stored != sum {
        return None;
    }
    Some((start, end))
}

/// The proof log.
pub struct ProofStorage {
    image: Vec<u8>,
    capacity: usize,
    superblock: Superblock,
    records: Ghost<Seq<Seq<u8>>>,
}

impl ProofStorage {
    /// The bytes of the log image.
    pub closed spec fn image_bytes(self) -> Seq<u8> {
        self.image@
    }

    /// The records that the log holds, in order.
    pub closed spec fn records(self) -> Seq<Seq<u8>> {
        self.records@
    }

    /// Number of bytes that the image may grow to.
    pub closed spec fn spec_capacity(self) -> usize {
        self.capacity
    }

    /// The superblock.
    pub closed spec fn spec_superblock(self) -> Superblock {
        self.superblock
    }

    /// The invariant of a log: the image is the superblock followed by the
    /// frames of the records, and the superblock is of this format and
    /// points just after the last record.
    pub open spec fn wf(self) -> bool {
        &&& self.image_bytes() == self.spec_superblock().spec_encode() + log_bytes(self.records())
        &&& self.spec_superblock().version == LOG_VERSION
        &&& self.spec_superblock().head_offset == self.image_bytes().len()
        &&& forall|i: int| 0 <= i < self.records().len() ==> (#[trigger] self.records()[i]).len() <= u32::MAX
    }

    /// Whether the log has room for a record of `len` bytes.
    pub open spec fn fits(self, len: int) -> bool {
        &&& len <= u32::MAX
        &&& self.image_bytes().len() + 8 + len <= self.spec_capacity()
    }

    /// An empty log whose image may grow to `capacity` bytes. The superblock
    /// is always there; a log with less room than that takes no record.
    pub fn new(capacity: usize) -> (log: ProofStorage)
        ensures
            log.wf(),
            log.records() == Seq::<Seq<u8>>::empty(),
            log.spec_capacity() == capacity,
            log.spec_superblock() == (Superblock {
                version: LOG_VERSION,
                head_offset: 128,
                checkpoint: hash::Hash::spec_zero(),
                op_watermark: 0,
            }),
    {
        let superblock = Superblock {
            version: LOG_VERSION,
            head_offset: 128,
            checkpoint: hash::Hash::zero(),
            op_watermark: 0,
        };
        let image = superblock.encode();
        let log = ProofStorage { image, capacity, superblock, records: Ghost(Seq::empty()) };
        assert(log.image_bytes() =~= superblock.spec_encode() + log_bytes(log.records()));
        log
    }

    /// Writes the superblock over the first 128 bytes of the image.
    fn write_superblock(&mut self)
        requires
            old(self).image@.len() >= 128,
        ensures
            final(self).image@ == final(self).superblock.spec_encode() + old(self).image@.skip(128),
            final(self).superblock == old(self).superblock,
            final(self).capacity == old(self).capacity,
            final(self).records == old(self).records,
    {
        let encoded = self.superblock.encode();
        let ghost before = self.image@;
        let mut i: usize = 0;
        while i < 128
            invariant
                i <= 128,
                encoded@ == self.superblock.spec_encode(),
                encoded@.len() == 128,
                self.image@.len() == before.len(),
                before.len() >= 128,
                self.superblock == old(self).superblock,
                self.capacity == old(self).capacity,
                self.records == old(self).records,
                forall|j: int| 0 <= j < i ==> self.image@[j] == encoded@[j],
                forall|j: int| i <= j < before.len() ==> self.image@[j] == before[j],
            decreases 128 - i,
        {
            self.image[i] = encoded[i];
            i += 1;
        }
        assert(self.image@ =~= self.superblock.spec_encode() + before.skip(128));
    }

    /// Appends a record. The log takes it if it has room for the frame;
    /// else it stays as it was.
    pub fn append(&mut self, payload: &[u8]) -> (result: Result<(), StorageError>)
        requires
            old(self).wf(),
        ensures
            final(self).wf(),
            final(self).spec_capacity() == old(self).spec_capacity(),
            old(self).fits(payload@.len() as int) ==> {
                &&& result is Ok
                &&& final(self).records() == old(self).records().push(payload@)
                &&& final(self).spec_superblock() == (Superblock {
                    head_offset: (old(self).image_bytes().len() + 8 + payload@.len()) as u64,
                    ..old(self).spec_superblock()
                })
            },
            !old(self).fits(payload@.len() as int) ==> {
                &&& result == Err::<(), StorageError>(StorageError::Full)
                &&& *final(self) == *old(self)
            },
    {
        let len = payload.len();
        let used = self.image.len();
        if len > 0xFFFF_FFFF || used > self.capacity || self.capacity - used < 8 || self.capacity - used
            - 8 < len {
            return Err(StorageError::Full);
        }
        let ghost before = *self;
        proof {
            before.superblock.lemma_decode_encode(Seq::empty());
        }
        push_u32_le(&mut self.image, len as u32);
        push_u32_le(&mut self.image, crc32(payload));
        push_all(&mut self.image, payload);
        self.superblock.head_offset = self.image.len() as u64;
        self.records = Ghost(self.records@.push(payload@));
        self.write_superblock();
        proof {
            lemma_log_bytes_push(before.records(), payload@);
            self.superblock.lemma_decode_encode(Seq::empty());
            assert(self.image_bytes() =~= self.spec_superblock().spec_encode() + log_bytes(
                self.records(),
            ));
        }
        Ok(())
    }

    /// Records a checkpoint in the superblock: the Merkle root `root`, which
    /// covers the operations up to `watermark`.
    pub fn set_checkpoint(&mut self, root: hash::Hash, watermark: u64)
        requires
            old(self).wf(),
        ensures
            final(self).wf(),
            final(self).records() == old(self).records(),
            final(self).spec_capacity() == old(self).spec_capacity(),
            final(self).spec_superblock() == (Superblock {
                checkpoint: root,
                op_watermark: watermark,
                ..old(self).spec_superblock()
            }),
    {
        let ghost before = *self;
        proof {
            before.superblock.lemma_decode_encode(Seq::empty());
        }
        self.superblock.checkpoint = root;
        self.superblock.op_watermark = watermark;
        self.write_superblock();
        proof {
            self.superblock.lemma_decode_encode(Seq::empty());
            assert(self.image_bytes() =~= self.spec_superblock().spec_encode() + log_bytes(
                self.records(),
            ));
        }
    }

    /// The bytes of the log image, as they go to disk.
    pub fn image(&self) -> (bytes: &Vec<u8>)
        ensures
            bytes@ == self.image_bytes(),
    {
        &self.image
    }

    /// Number of bytes of the image.
    pub fn len(&self) -> (n: usize)
        ensures
            n == self.image_bytes().len(),
    {
        self.image.len()
    }

    /// Number of bytes that the image may grow to.
    pub fn capacity(&self) -> (n: usize)
        ensures
            n == self.spec_capacity(),
    {
        self.capacity
    }

    /// The superblock.
    pub fn superblock(&self) -> (sb: Superblock)
        ensures
            sb == self.spec_superblock(),
    {
        self.superblock
    }

    /// The image of a log starts with its superblock, which reads back, and
    /// holds at least eight bytes for every record.
    pub proof fn lemma_image_shape(self)
        requires
            self.wf(),
        ensures
            self.image_bytes().len() == 128 + log_bytes(self.records()).len(),
            self.image_bytes().len() >= 128 + 8 * self.records().len(),
            Superblock::spec_decode(self.image_bytes()) == Some(self.spec_superblock()),
            self.image_bytes().skip(128) == log_bytes(self.records()),
    {
        self.spec_superblock().lemma_decode_encode(log_bytes(self.records()));
        lemma_log_bytes_len(self.records());
        assert(self.image_bytes().skip(128) =~= log_bytes(self.records()));
    }
}

} // verus!
