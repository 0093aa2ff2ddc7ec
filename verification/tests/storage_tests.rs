use vekos::crc32::crc32;
use vekos::hash;
use vekos::proof_storage::{read_frame, ProofStorage, Superblock, LOG_MAGIC, LOG_VERSION, SUPERBLOCK_LEN};
use vekos::verification::StorageError;

#[test]
fn superblock_layout() {
    let sb = Superblock {
        version: 1,
        head_offset: 0x1122334455667788,
        checkpoint: hash::hash(b"root"),
        op_watermark: 0x0102030405060708,
    };
    let bytes = sb.encode();
    assert_eq!(bytes.len(), 128);
    assert_eq!(SUPERBLOCK_LEN, 128);
    assert_eq!(&bytes[0..8], b"FRPSOKEV");
    assert_eq!(LOG_MAGIC, 0x56454B4F53505246);
    assert_eq!(&bytes[8..12], &1u32.to_le_bytes());
    assert_eq!(&bytes[12..20], &0x1122334455667788u64.to_le_bytes());
    assert_eq!(&bytes[20..52], &hash::hash(b"root").bytes()[..]);
    assert_eq!(&bytes[52..60], &0x0102030405060708u64.to_le_bytes());
    assert!(bytes[60..124].iter().all(|b| *b == 0));
    assert_eq!(&bytes[124..128], &crc32(&bytes[0..124]).to_le_bytes());
    assert_eq!(Superblock::decode(&bytes), Some(sb));
}

#[test]
fn superblock_decode_rejects_damage() {
    let sb = Superblock { version: LOG_VERSION, head_offset: 128, checkpoint: hash::Hash::zero(), op_watermark: 0 };
    let bytes = sb.encode();
    for at in [0usize, 9, 15, 30, 55, 70, 125] {
        let mut damaged = bytes.clone();
        damaged[at] ^= 0x40;
        assert_eq!(Superblock::decode(&damaged), None);
    }
    assert_eq!(Superblock::decode(&bytes[..127]), None);
    let mut longer = bytes.clone();
    longer.extend_from_slice(b"records follow");
    assert_eq!(Superblock::decode(&longer), Some(sb));
}

#[test]
fn new_log_is_just_the_superblock() {
    let log = ProofStorage::new(4096);
    assert_eq!(log.len(), 128);
    assert_eq!(log.capacity(), 4096);
    assert_eq!(
        log.superblock(),
        Superblock { version: 1, head_offset: 128, checkpoint: hash::Hash::zero(), op_watermark: 0 }
    );
    assert_eq!(Superblock::decode(log.image()), Some(log.superblock()));
}

#[test]
fn append_frames_record_with_length_and_crc() {
    let mut log = ProofStorage::new(4096);
    assert_eq!(log.append(b"hello"), Ok(()));
    assert_eq!(log.append(b""), Ok(()));
    let image = log.image().clone();
    assert_eq!(image.len(), 128 + 8 + 5 + 8);
    assert_eq!(&image[128..132], &5u32.to_le_bytes());
    assert_eq!(&image[132..136], &crc32(b"hello").to_le_bytes());
    assert_eq!(&image[136..141], b"hello");
    assert_eq!(&image[141..145], &0u32.to_le_bytes());
    assert_eq!(&image[145..149], &crc32(b"").to_le_bytes());
    assert_eq!(log.superblock().head_offset, 149);
    assert_eq!(Superblock::decode(&image), Some(log.superblock()));
    assert_eq!(read_frame(&image, 128, 149), Some((136, 141)));
    assert_eq!(read_frame(&image, 141, 149), Some((149, 149)));
    assert_eq!(read_frame(&image, 149, 149), None);
}

#[test]
fn full_log_refuses_and_stays_unchanged() {
    let mut log = ProofStorage::new(128 + 8 + 4);
    assert_eq!(log.append(b"12345"), Err(StorageError::Full));
    assert_eq!(log.len(), 128);
    assert_eq!(log.append(b"1234"), Ok(()));
    let before = log.image().clone();
    assert_eq!(log.append(b""), Err(StorageError::Full));
    assert_eq!(log.image(), &before);
    let mut tiny = ProofStorage::new(10);
    assert_eq!(tiny.append(b""), Err(StorageError::Full));
    assert_eq!(tiny.len(), 128);
}

#[test]
fn read_frame_detects_damage() {
    let mut log = ProofStorage::new(4096);
    log.append(b"some record bytes").unwrap();
    let image = log.image().clone();
    let head = image.len();
    assert_eq!(read_frame(&image, 128, head), Some((136, head)));
    for at in 128..head {
        let mut damaged = image.clone();
        damaged[at] ^= 1;
        assert_eq!(read_frame(&damaged, 128, head), None);
    }
    assert_eq!(read_frame(&image, 128, head - 1), None);
    assert_eq!(read_frame(&image, head - 4, head), None);
    assert_eq!(read_frame(&image, head + 1, head), None);
}

#[test]
fn checkpoint_is_written_to_superblock() {
    let mut log = ProofStorage::new(4096);
    log.append(b"record").unwrap();
    log.set_checkpoint(hash::hash(b"root"), 1);
    let sb = log.superblock();
    assert_eq!(sb.checkpoint, hash::hash(b"root"));
    assert_eq!(sb.op_watermark, 1);
    assert_eq!(sb.head_offset, 142);
    assert_eq!(Superblock::decode(log.image()), Some(sb));
    assert_eq!(&log.image()[136..142], b"record");
}
