use rusty_link::encoding::{decode_from_slice, encode_to_vec, DecodeError};

#[test]
fn u8_roundtrip() {
    let v: u8 = 0xAB;
    let enc = encode_to_vec(&v).unwrap();
    assert_eq!(enc, [0xAB]);
    let (dec, n) = decode_from_slice::<u8>(&enc).unwrap();
    assert_eq!(dec, v);
    assert_eq!(n, 1);
}

#[test]
fn u16_big_endian() {
    let v: u16 = 0x1234;
    let enc = encode_to_vec(&v).unwrap();
    assert_eq!(enc, [0x12, 0x34]);
    let (dec, n) = decode_from_slice::<u16>(&enc).unwrap();
    assert_eq!(dec, v);
    assert_eq!(n, 2);
}

#[test]
fn u32_big_endian() {
    let v: u32 = 0xDEADBEEF;
    let enc = encode_to_vec(&v).unwrap();
    assert_eq!(enc, [0xDE, 0xAD, 0xBE, 0xEF]);
    let (dec, _) = decode_from_slice::<u32>(&enc).unwrap();
    assert_eq!(dec, v);
}

#[test]
fn i64_roundtrip() {
    let v: i64 = -123456789;
    let enc = encode_to_vec(&v).unwrap();
    let (dec, _) = decode_from_slice::<i64>(&enc).unwrap();
    assert_eq!(dec, v);
}

#[test]
fn bool_roundtrip() {
    let enc_true = encode_to_vec(&true).unwrap();
    let enc_false = encode_to_vec(&false).unwrap();
    assert_eq!(enc_true, [1]);
    assert_eq!(enc_false, [0]);
    assert!(decode_from_slice::<bool>(&enc_true).unwrap().0);
    assert!(!decode_from_slice::<bool>(&enc_false).unwrap().0);
}

#[test]
fn bool_invalid() {
    assert!(matches!(
        decode_from_slice::<bool>(&[2]),
        Err(DecodeError::InvalidBool(2))
    ));
}

#[test]
fn byte_array_roundtrip() {
    let v: [u8; 4] = [1, 2, 3, 4];
    let enc = encode_to_vec(&v).unwrap();
    assert_eq!(enc, [1, 2, 3, 4]);
    let (dec, n) = decode_from_slice::<[u8; 4]>(&enc).unwrap();
    assert_eq!(dec, v);
    assert_eq!(n, 4);
}

#[test]
fn tuple2_roundtrip() {
    let v: (u32, u16) = (0x01020304, 0x0506);
    let enc = encode_to_vec(&v).unwrap();
    assert_eq!(enc, [0x01, 0x02, 0x03, 0x04, 0x05, 0x06]);
    let (dec, _) = decode_from_slice::<(u32, u16)>(&enc).unwrap();
    assert_eq!(dec, v);
}

#[test]
fn tuple3_roundtrip() {
    let v: (u8, u16, u32) = (0xFF, 0x1234, 0xAABBCCDD);
    let enc = encode_to_vec(&v).unwrap();
    let (dec, _) = decode_from_slice::<(u8, u16, u32)>(&enc).unwrap();
    assert_eq!(dec, v);
}

#[test]
fn unexpected_end() {
    assert!(matches!(
        decode_from_slice::<u32>(&[0, 1]),
        Err(DecodeError::UnexpectedEnd)
    ));
}

#[test]
fn u64_and_i64_are_big_endian() {
    let enc = encode_to_vec(&0x0102030405060708u64).unwrap();
    assert_eq!(enc, [1, 2, 3, 4, 5, 6, 7, 8]);
    let enc = encode_to_vec(&-2i64).unwrap();
    assert_eq!(enc, [0xff, 0xff, 0xff, 0xff, 0xff, 0xff, 0xff, 0xfe]);
    assert_eq!(decode_from_slice::<i64>(&enc).unwrap(), (-2, 8));
}

#[test]
fn decoding_reads_only_the_value() {
    let (v, n) = decode_from_slice::<u16>(&[0xab, 0xcd, 0xef]).unwrap();
    assert_eq!(v, 0xabcd);
    assert_eq!(n, 2);
}

