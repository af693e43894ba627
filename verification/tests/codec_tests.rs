use txcodec::codec::{push_compact_size, push_u16, push_u32, push_u64, read_blob,
    read_compact_size, read_u16, read_u32, read_u64};
use txcodec::Error;

#[test]
fn main_test_read_compact_size() {
    let bytes = [1_u8];
    let (count, _) = read_compact_size(&bytes, 0).unwrap();
    assert_eq!(count, 1_u64);

    let bytes = [253_u8, 0, 1];
    let (count, _) = read_compact_size(&bytes, 0).unwrap();
    assert_eq!(count, 256_u64);

    let bytes = [254_u8, 0, 0, 0, 1];
    let (count, _) = read_compact_size(&bytes, 0).unwrap();
    assert_eq!(count, 256_u64.pow(3));

    let bytes = [255_u8, 0, 0, 0, 0, 0, 0, 0, 1];
    let (count, _) = read_compact_size(&bytes, 0).unwrap();
    assert_eq!(count, 256_u64.pow(7));

    let hex = "fd204e";
    let decoded = hex::decode(hex).unwrap();
    let (count, _) = read_compact_size(&decoded, 0).unwrap();
    assert_eq!(count, 20_000_u64);
}

#[test]
fn tests_test_read_compact_size() {
    let bytes = [1_u8];
    let (count, _) = read_compact_size(&bytes, 0).unwrap();
    assert_eq!(count, 1_u64);

    let bytes = [253_u8, 0, 1];
    let (count, _) = read_compact_size(&bytes, 0).unwrap();
    assert_eq!(count, 256_u64);

    let bytes = [254_u8, 0, 0, 0, 1];
    let (count, _) = read_compact_size(&bytes, 0).unwrap();
    assert_eq!(count, 256_u64.pow(3));

    let bytes = [255_u8, 0, 0, 0, 0, 0, 0, 0, 1];
    let (count, _) = read_compact_size(&bytes, 0).unwrap();
    assert_eq!(count, 256_u64.pow(7));

    let hex = "fd204e";
    let decoded = hex::decode(hex).unwrap();
    let (count, _) = read_compact_size(&decoded, 0).unwrap();
    assert_eq!(count, 20_000_u64);
}

#[test]
fn compact_size_round_trip_all_widths() {
    let cases: [(u64, usize); 10] = [
        (0, 1),
        (1, 1),
        (252, 1),
        (253, 3),
        (255, 3),
        (65535, 3),
        (65536, 5),
        (u32::MAX as u64, 5),
        (u32::MAX as u64 + 1, 9),
        (u64::MAX, 9),
    ];
    for (v, expected_len) in cases {
        let mut enc: Vec<u8> = Vec::new();
        push_compact_size(&mut enc, v);
        assert_eq!(enc.len(), expected_len, "length for {}", v);
        let (back, end) = read_compact_size(&enc, 0).unwrap();
        assert_eq!(back, v);
        assert_eq!(end, enc.len());
    }
}

#[test]
fn compact_size_minimal_tags() {
    let mut enc: Vec<u8> = Vec::new();
    push_compact_size(&mut enc, 252);
    assert_eq!(enc, vec![0xFC]);

    let mut enc: Vec<u8> = Vec::new();
    push_compact_size(&mut enc, 253);
    assert_eq!(enc, vec![0xFD, 0xFD, 0x00]);

    let mut enc: Vec<u8> = Vec::new();
    push_compact_size(&mut enc, 20_000);
    assert_eq!(enc, hex::decode("fd204e").unwrap());

    let mut enc: Vec<u8> = Vec::new();
    push_compact_size(&mut enc, 65536);
    assert_eq!(enc, vec![0xFE, 0x00, 0x00, 0x01, 0x00]);

    let mut enc: Vec<u8> = Vec::new();
    push_compact_size(&mut enc, u64::MAX);
    assert_eq!(enc, vec![0xFF, 0xFF, 0xFF, 0xFF, 0xFF, 0xFF, 0xFF, 0xFF, 0xFF]);
}

#[test]
fn compact_size_accepts_non_minimal_forms() {
    // tag 0xFD carrying a value that would fit in one byte still decodes
    let bytes = [0xFD_u8, 0x05, 0x00];
    let (v, end) = read_compact_size(&bytes, 0).unwrap();
    assert_eq!(v, 5);
    assert_eq!(end, 3);
}

#[test]
fn compact_size_truncated() {
    assert_eq!(read_compact_size(&[], 0), Err(Error::Truncated));
    assert_eq!(read_compact_size(&[0xFD], 0), Err(Error::Truncated));
    assert_eq!(read_compact_size(&[0xFE, 1, 2], 0), Err(Error::Truncated));
    assert_eq!(read_compact_size(&[0xFF, 1, 2, 3, 4, 5, 6, 7], 0), Err(Error::Truncated));
}

#[test]
fn fixed_width_round_trip_little_endian() {
    let mut enc: Vec<u8> = Vec::new();
    push_u32(&mut enc, 0x01020304);
    assert_eq!(enc, vec![0x04, 0x03, 0x02, 0x01]);
    let (v, end) = read_u32(&enc, 0).unwrap();
    assert_eq!(v, 0x01020304);
    assert_eq!(end, 4);

    let mut enc: Vec<u8> = Vec::new();
    push_u16(&mut enc, 0xBEEF);
    assert_eq!(enc, vec![0xEF, 0xBE]);
    let (v, _) = read_u16(&enc, 0).unwrap();
    assert_eq!(v, 0xBEEF);

    let mut enc: Vec<u8> = Vec::new();
    push_u64(&mut enc, 0x0102030405060708);
    assert_eq!(enc, vec![8, 7, 6, 5, 4, 3, 2, 1]);
    let (v, _) = read_u64(&enc, 0).unwrap();
    assert_eq!(v, 0x0102030405060708);

    for v in [0_u32, 1, 0xFFFF_FFFF, 0x8000_0000] {
        let mut enc: Vec<u8> = Vec::new();
        push_u32(&mut enc, v);
        assert_eq!(read_u32(&enc, 0).unwrap().0, v);
    }
    for v in [0_u64, 1, u64::MAX, 0x8000_0000_0000_0000] {
        let mut enc: Vec<u8> = Vec::new();
        push_u64(&mut enc, v);
        assert_eq!(read_u64(&enc, 0).unwrap().0, v);
    }
}

#[test]
fn fixed_width_truncated() {
    assert_eq!(read_u32(&[1, 2, 3], 0), Err(Error::Truncated));
    assert_eq!(read_u64(&[1, 2, 3, 4, 5, 6, 7], 0), Err(Error::Truncated));
    assert_eq!(read_u16(&[1, 2], 1), Err(Error::Truncated));
}

#[test]
fn blob_round_trip_and_truncation() {
    let bytes = [0x02_u8, 0xAB, 0xCD, 0xEE];
    let (blob, end) = read_blob(&bytes, 0).unwrap();
    assert_eq!(blob, vec![0xAB, 0xCD]);
    assert_eq!(end, 3);

    // the declared length exceeds what remains
    let bytes = [0x05_u8, 0xAB, 0xCD];
    assert_eq!(read_blob(&bytes, 0), Err(Error::Truncated));
}
