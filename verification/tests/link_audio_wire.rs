use rusty_link::link::node::NodeId;
use rusty_link::link_audio::encoding::{size_of_string, ByteStreamReader, ByteStreamWrite};
use rusty_link::link_audio::error::AudioError;
use rusty_link::link_audio::messages::{
    audio_buffer_message, encode_message, parse_message_header, protocol_header, AUDIO_BUFFER,
    CHANNEL_REQUEST, HEADER_SIZE, MAX_MESSAGE_SIZE, MAX_PAYLOAD_SIZE, MESSAGE_HEADER_SIZE, PONG,
    PROTOCOL_HEADER_SIZE,
};

#[test]
fn string_roundtrip_uses_u32_length_prefix() {
    let mut buf = Vec::new();
    buf.write_string("hello");
    assert_eq!(buf, vec![0, 0, 0, 5, b'h', b'e', b'l', b'l', b'o']);
    assert_eq!(size_of_string("hello"), 9);

    let mut reader = ByteStreamReader::new(&buf);
    assert_eq!(reader.read_string().unwrap(), "hello");
    assert!(reader.is_empty());
}

#[test]
fn integers_roundtrip_big_endian() {
    let mut buf = Vec::new();
    buf.write_u16(0x1234);
    buf.write_i16(-2);
    buf.write_u32(0xdead_beef);
    buf.write_u64(0x0102_0304_0506_0708);

    assert_eq!(buf[0], 0x12);

    let mut reader = ByteStreamReader::new(&buf);
    assert_eq!(reader.read_u16().unwrap(), 0x1234);
    assert_eq!(reader.read_i16().unwrap(), -2);
    assert_eq!(reader.read_u32().unwrap(), 0xdead_beef);
    assert_eq!(reader.read_u64().unwrap(), 0x0102_0304_0506_0708);
    assert!(reader.is_empty());
}

#[test]
fn truncated_stream_is_an_error() {
    let buf = vec![0u8, 1];
    let mut reader = ByteStreamReader::new(&buf);
    assert!(reader.read_u32().is_err());
}

#[test]
fn vec_roundtrip() {
    let mut buf = Vec::new();
    buf.write_u32(3);
    for v in [10u16, 20, 30] {
        buf.write_u16(v);
    }

    let mut reader = ByteStreamReader::new(&buf);
    let values = reader.read_vec::<u16>().unwrap();
    assert_eq!(values, vec![10, 20, 30]);
}

#[test]
fn a_failed_read_consumes_nothing() {
    let buf = vec![0u8, 1, 2];
    let mut reader = ByteStreamReader::new(&buf);
    assert!(matches!(reader.read_u32(), Err(AudioError::Range(_))));
    assert_eq!(reader.position(), 0);
    assert_eq!(reader.read_u16().unwrap(), 1);
    assert_eq!(reader.remaining(), 1);
}

#[test]
fn invalid_utf8_is_read_lossily() {
    let buf = vec![0u8, 0, 0, 2, 0xff, b'a'];
    let mut reader = ByteStreamReader::new(&buf);
    assert_eq!(reader.read_string().unwrap(), "\u{fffd}a");
}

#[test]
fn vec_reading_stops_where_the_data_ends() {
    let mut buf = Vec::new();
    buf.write_u32(3);
    buf.write_u16(1);
    let mut reader = ByteStreamReader::new(&buf);
    assert_eq!(reader.read_vec::<u16>().unwrap(), vec![1]);
    // An element cut short is an error.
    let mut buf = Vec::new();
    buf.write_u32(2);
    buf.write_u8(1);
    let mut reader = ByteStreamReader::new(&buf);
    assert!(reader.read_vec::<u16>().is_err());
}

#[test]
fn protocol_header_is_chnnlsv1() {
    assert_eq!(&protocol_header()[..6], b"chnnls");
    assert_eq!(protocol_header()[6], b'v');
    assert_eq!(protocol_header()[7], 1);
}

#[test]
fn header_size_matches_upstream() {
    // 8 byte protocol header + 12 byte message header + payload key/size
    // headers must all fit in the 24 bytes reserved upstream.
    assert!(PROTOCOL_HEADER_SIZE + MESSAGE_HEADER_SIZE <= HEADER_SIZE);
    assert_eq!(MAX_PAYLOAD_SIZE, MAX_MESSAGE_SIZE - HEADER_SIZE);
}

#[test]
fn message_roundtrip() {
    let node_id = NodeId::from_array([1, 2, 3, 4, 5, 6, 7, 8]);
    let msg = encode_message(node_id, 5, CHANNEL_REQUEST, &[0xaa, 0xbb]).unwrap();

    let (header, offset) = parse_message_header(&msg).unwrap();
    assert_eq!(header.message_type, CHANNEL_REQUEST);
    assert_eq!(header.ttl, 5);
    assert_eq!(header.group_id, 0);
    assert_eq!(header.ident, node_id);
    assert_eq!(&msg[offset..], &[0xaa, 0xbb]);
}

#[test]
fn oversized_message_is_rejected() {
    let payload = vec![0u8; MAX_MESSAGE_SIZE];
    let err = encode_message(NodeId::default(), 1, AUDIO_BUFFER, &payload).unwrap_err();
    assert!(matches!(err, AudioError::MessageTooLarge(_, _)));
}

#[test]
fn wrong_protocol_header_is_rejected() {
    let mut msg = encode_message(NodeId::default(), 1, PONG, &[]).unwrap();
    msg[0] = b'x';
    assert!(parse_message_header(&msg).is_err());
}

#[test]
fn short_message_is_rejected() {
    assert!(parse_message_header(&[0u8; 4]).is_err());
}

#[test]
fn audio_buffer_message_uses_zero_ttl() {
    let msg = audio_buffer_message(NodeId::default(), &[1, 2, 3]).unwrap();
    let (header, _) = parse_message_header(&msg).unwrap();
    assert_eq!(header.message_type, AUDIO_BUFFER);
    assert_eq!(header.ttl, 0);
}

#[test]
fn a_message_of_exactly_the_maximum_size_is_accepted() {
    let payload = vec![0u8; MAX_MESSAGE_SIZE - 20];
    let msg = encode_message(NodeId::default(), 1, AUDIO_BUFFER, &payload).unwrap();
    assert_eq!(msg.len(), MAX_MESSAGE_SIZE);
    let payload = vec![0u8; MAX_MESSAGE_SIZE - 19];
    assert!(matches!(
        encode_message(NodeId::default(), 1, AUDIO_BUFFER, &payload),
        Err(AudioError::MessageTooLarge(1201, 1200))
    ));
}

#[test]
fn a_failed_read_never_moves_the_position_back() {
    // The length prefix is read, then the string runs short.
    let data = [0u8, 0, 0, 10, b'a', b'b'];
    let mut reader = ByteStreamReader::new(&data);
    assert!(matches!(reader.read_string(), Err(AudioError::Range(_))));
    assert_eq!(reader.position(), 4);
    assert_eq!(reader.remaining(), 2);
    // Too short for the prefix: nothing moves.
    let short = [0u8, 0];
    let mut reader = ByteStreamReader::new(&short);
    assert!(reader.read_string().is_err());
    assert_eq!(reader.position(), 0);
}
