use rust_mc_bot::buffer::{Buf, ReadErr};
use rust_mc_bot::codec::{encode_frame, read_frame, CodecError};

fn varint(v: u32) -> Vec<u8> {
    let mut b = Buf::new();
    b.write_varint(v);
    b.into_bytes()
}

fn decode_varint(bytes: &[u8]) -> Result<u32, ReadErr> {
    let mut b = Buf::from_vec(bytes.to_vec());
    b.read_varint()
}

#[test]
fn varint_round_trip_values() {
    for v in [0u32, 1, 0x7F, 0x80, 300, 763, 0x3FFF, 0x4000, 0x1FFFFF, 0x200000, u32::MAX] {
        let e = varint(v);
        assert!(1 <= e.len() && e.len() <= 5);
        assert_eq!(decode_varint(&e), Ok(v));
    }
}

#[test]
fn varint_lengths() {
    assert_eq!(varint(0), vec![0x00]);
    assert_eq!(varint(0x7F).len(), 1);
    assert_eq!(varint(0x80), vec![0x80, 0x01]);
    assert_eq!(varint(300), vec![0xAC, 0x02]);
    assert_eq!(varint(763), vec![0xFB, 0x05]);
    assert_eq!(varint(u32::MAX).len(), 5);
}

#[test]
fn varint_incomplete() {
    assert_eq!(decode_varint(&[]), Err(ReadErr::Insufficient));
    assert_eq!(decode_varint(&[0x80]), Err(ReadErr::Insufficient));
    assert_eq!(decode_varint(&[0xFF, 0xFF]), Err(ReadErr::Insufficient));
}

#[test]
fn varint_leading_zero_rejected() {
    assert_eq!(decode_varint(&[0x80, 0x00]), Err(ReadErr::Malformed));
    assert_eq!(decode_varint(&[0xFF, 0xFF, 0x00]), Err(ReadErr::Malformed));
}

#[test]
fn varint_too_long_rejected() {
    // a fifth byte may not carry a continuation bit, nor more than four data bits
    assert_eq!(decode_varint(&[0xFF, 0xFF, 0xFF, 0xFF, 0xFF]), Err(ReadErr::Malformed));
    assert_eq!(decode_varint(&[0xFF, 0xFF, 0xFF, 0xFF, 0x10]), Err(ReadErr::Malformed));
}

#[test]
fn buffer_reads_and_cursors() {
    let mut b = Buf::new();
    b.write_u16(0x1234);
    b.write_u64(0x0102030405060708);
    assert_eq!(b.remaining(), 10);
    assert_eq!(b.read_u8(), Ok(0x12));
    assert_eq!(b.read_u8(), Ok(0x34));
    assert_eq!(b.read_u64(), Ok(0x0102030405060708));
    assert_eq!(b.read_u8(), Err(ReadErr::Insufficient));
    assert_eq!(b.read_u64(), Err(ReadErr::Insufficient));
}

#[test]
fn buffer_compact_keeps_unread_tail() {
    let mut b = Buf::new();
    b.write_bytes(&vec![1, 2, 3, 4, 5]);
    b.skip(2).unwrap();
    b.compact();
    assert_eq!(b.remaining(), 3);
    assert_eq!(b.read_u8(), Ok(3));
}

#[test]
fn length_prefixed_string_round_trip() {
    let mut b = Buf::new();
    b.write_str_bytes(&b"Bot_0".to_vec());
    assert_eq!(b.read_str_bytes(), Ok(b"Bot_0".to_vec()));
    // a complete length header with a short body consumes nothing
    let mut c = Buf::from_vec(vec![5, b'a', b'b']);
    assert_eq!(c.read_str_bytes(), Err(ReadErr::Insufficient));
    assert_eq!(c.remaining(), 3);
}

#[test]
fn frame_round_trip_uncompressed() {
    let payload: Vec<u8> = (0..200u32).map(|i| (i % 251) as u8).collect();
    let frame = encode_frame(&payload, -1).unwrap();
    assert_eq!(frame.len(), payload.len() + 2);
    let mut b = Buf::from_vec(frame);
    let got = read_frame(&mut b, -1).unwrap().unwrap();
    assert_eq!(got, payload);
    assert_eq!(b.remaining(), 0);
}

#[test]
fn frame_round_trip_compressed_above_threshold() {
    let payload: Vec<u8> = std::iter::repeat(0xABu8).take(4096).collect();
    let frame = encode_frame(&payload, 256).unwrap();
    // the frame body declares the uncompressed length right after the header
    let mut hdr = Buf::from_vec(frame.clone());
    let outer = hdr.read_varint().unwrap() as usize;
    assert_eq!(outer, frame.len() - hdr.cursor());
    let declared = hdr.read_varint().unwrap();
    assert_eq!(declared, 4096);
    // a run of one byte compresses well below its plain size
    assert!(frame.len() < payload.len());
    let mut b = Buf::from_vec(frame);
    let got = read_frame(&mut b, 256).unwrap().unwrap();
    assert_eq!(got, payload);
    assert_eq!(b.remaining(), 0);
}

#[test]
fn frame_round_trip_compressed_below_threshold() {
    let payload = vec![9u8, 8, 7, 6, 5];
    let frame = encode_frame(&payload, 256).unwrap();
    // VarInt(len + 1), the zero "uncompressed length" marker, then the payload
    assert_eq!(frame, vec![6, 0, 9, 8, 7, 6, 5]);
    let mut b = Buf::from_vec(frame);
    let got = read_frame(&mut b, 256).unwrap().unwrap();
    assert_eq!(got, payload);
    assert_eq!(b.remaining(), 0);
}

#[test]
fn frame_partial_prefix_then_rest() {
    let payload: Vec<u8> = (0..100u8).collect();
    let frame = encode_frame(&payload, -1).unwrap();
    for cut in [0usize, 1, 50, frame.len() - 1] {
        let mut b = Buf::new();
        b.write_bytes(&frame[..cut].to_vec());
        assert_eq!(read_frame(&mut b, -1), Ok(None));
        assert_eq!(b.remaining(), cut, "prefix must stay in place");
        b.write_bytes(&frame[cut..].to_vec());
        let got = read_frame(&mut b, -1).unwrap().unwrap();
        assert_eq!(got, payload);
        assert_eq!(b.remaining(), 0);
    }
}

#[test]
fn frame_residual_bytes_stay() {
    let p1 = vec![1u8, 2, 3];
    let p2 = vec![4u8, 5];
    let mut both = encode_frame(&p1, -1).unwrap();
    both.extend_from_slice(&encode_frame(&p2, -1).unwrap());
    let mut b = Buf::from_vec(both);
    assert_eq!(read_frame(&mut b, -1).unwrap().unwrap(), p1);
    assert_eq!(read_frame(&mut b, -1).unwrap().unwrap(), p2);
    assert_eq!(read_frame(&mut b, -1), Ok(None));
}

#[test]
fn frame_bad_length_header_is_malformed() {
    let mut b = Buf::from_vec(vec![0x80, 0x00, 1, 2, 3]);
    assert_eq!(read_frame(&mut b, -1), Err(CodecError::Malformed));
    assert_eq!(b.remaining(), 5, "a malformed frame consumes nothing");
}

#[test]
fn frame_corrupt_zlib_is_malformed() {
    // outer length 7; declared uncompressed length 5; garbage "zlib" bytes
    let mut bytes = vec![7u8, 5];
    bytes.extend_from_slice(&[0xDE, 0xAD, 0xBE, 0xEF, 0x00, 0x01]);
    let mut b = Buf::from_vec(bytes);
    assert_eq!(read_frame(&mut b, 1), Err(CodecError::Malformed));
}

#[test]
fn frame_length_mismatch_is_malformed() {
    // compress a 16-byte payload but declare 15: the codec must reject it
    let payload: Vec<u8> = (0..16u8).collect();
    let frame = encode_frame(&payload, 0).unwrap();
    let mut parts = Buf::from_vec(frame);
    let _outer = parts.read_varint().unwrap();
    let _declared = parts.read_varint().unwrap();
    let zlib = parts.read_bytes(parts.remaining()).unwrap();
    let mut forged = Buf::new();
    let mut body = Buf::new();
    body.write_varint(15);
    body.write_bytes(&zlib);
    let body = body.into_bytes();
    forged.write_varint(body.len() as u32);
    forged.write_bytes(&body);
    let mut b = Buf::from_vec(forged.into_bytes());
    assert_eq!(read_frame(&mut b, 0), Err(CodecError::Malformed));
}
