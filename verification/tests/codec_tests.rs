use line_proto::Buffer;
use line_proto::CodecError;
use line_proto::LineCodec;
use line_proto::Message;
use line_proto::validate_utf8;

fn msg(bytes: &[u8]) -> Message {
    Message::new(bytes.to_vec()).expect("valid UTF-8")
}

#[test]
fn round_trip_hello() {
    let codec = LineCodec;
    let mut wire: Vec<u8> = Vec::new();
    codec.encode(msg(b"hello"), &mut wire);
    assert_eq!(wire, b"hello\n".to_vec());

    let mut buf = Buffer::new();
    buf.extend(&wire);
    let got = codec.decode(&mut buf).unwrap().unwrap();
    assert_eq!(got.as_bytes().as_slice(), &b"hello"[..]);
    assert_eq!(buf.len(), 0);
}

#[test]
fn incremental_delivery() {
    let codec = LineCodec;
    let mut wire: Vec<u8> = Vec::new();
    codec.encode(msg(b"hello"), &mut wire);

    let mut buf = Buffer::new();
    for (k, byte) in wire.iter().enumerate() {
        buf.extend(&[*byte]);
        if k + 1 < wire.len() {
            let r = codec.decode(&mut buf).unwrap();
            assert!(r.is_none(), "no complete frame before the newline");
        }
    }
    let got = codec.decode(&mut buf).unwrap().unwrap();
    assert_eq!(got.as_bytes().as_slice(), &b"hello"[..]);
    assert_eq!(buf.len(), 0);
}

#[test]
fn multiple_frames_in_one_read() {
    let codec = LineCodec;
    let mut buf = Buffer::new();
    buf.extend(b"a\nb\nc\n");

    let first = codec.decode(&mut buf).unwrap().unwrap();
    assert_eq!(first.as_bytes().as_slice(), &b"a"[..]);
    let second = codec.decode(&mut buf).unwrap().unwrap();
    assert_eq!(second.as_bytes().as_slice(), &b"b"[..]);
    let third = codec.decode(&mut buf).unwrap().unwrap();
    assert_eq!(third.as_bytes().as_slice(), &b"c"[..]);
    assert!(codec.decode(&mut buf).unwrap().is_none());
    assert_eq!(buf.len(), 0);
}

#[test]
fn empty_frame_decodes_to_empty_message() {
    let codec = LineCodec;
    let mut buf = Buffer::new();
    buf.extend(b"\n");
    let got = codec.decode(&mut buf).unwrap().unwrap();
    assert_eq!(got.len(), 0);
    assert_eq!(got.as_bytes().as_slice(), &b""[..]);
}

#[test]
fn delimiter_as_last_byte_decodes_immediately() {
    let codec = LineCodec;
    let mut buf = Buffer::new();
    buf.extend(b"partial");
    assert!(codec.decode(&mut buf).unwrap().is_none());
    buf.extend(b" done\n");
    let got = codec.decode(&mut buf).unwrap().unwrap();
    assert_eq!(got.as_bytes().as_slice(), &b"partial done"[..]);
}

#[test]
fn malformed_frame_is_an_error() {
    let codec = LineCodec;
    let mut buf = Buffer::new();
    buf.extend(&[0xFF, b'\n']);
    let r = codec.decode(&mut buf);
    assert!(matches!(r, Err(CodecError::MalformedFrame)));
    assert_eq!(buf.len(), 0, "the bad frame and its delimiter are consumed");
}

#[test]
fn frame_after_malformed_is_still_decodable() {
    let codec = LineCodec;
    let mut buf = Buffer::new();
    buf.extend(&[0xFF, b'\n', b'a', b'\n']);
    assert!(matches!(codec.decode(&mut buf), Err(CodecError::MalformedFrame)));
    let got = codec.decode(&mut buf).unwrap().unwrap();
    assert_eq!(got.as_bytes().as_slice(), &b"a"[..]);
}

#[test]
fn encode_appends_exactly_one_newline() {
    let codec = LineCodec;
    let mut out: Vec<u8> = Vec::new();
    codec.encode(msg(b""), &mut out);
    assert_eq!(out, b"\n".to_vec());
    codec.encode(msg(b"hi"), &mut out);
    assert_eq!(out, b"\nhi\n".to_vec());
}

#[test]
fn message_new_accepts_valid_utf8() {
    assert!(Message::new(b"plain ascii".to_vec()).is_some());
    let two_byte = Message::new(vec![0xC3, 0xA9]).unwrap();
    assert_eq!(two_byte.len(), 2);
    assert!(Message::new(vec![0xE2, 0x82, 0xAC]).is_some());
    assert!(Message::new(vec![0xF0, 0x9F, 0x98, 0x80]).is_some());
    assert!(Message::new(Vec::new()).is_some());
}

#[test]
fn message_new_rejects_invalid_utf8() {
    assert!(Message::new(vec![0xFF]).is_none());
    assert!(Message::new(vec![0xC0, 0x80]).is_none(), "overlong form");
    assert!(Message::new(vec![0xED, 0xA0, 0x80]).is_none(), "surrogate");
    assert!(Message::new(vec![0xC3]).is_none(), "truncated sequence");
    assert!(Message::new(vec![0xF5, 0x80, 0x80, 0x80]).is_none(), "above U+10FFFF");
}

#[test]
fn validate_utf8_matches_std() {
    let cases: Vec<Vec<u8>> = vec![
        b"hello".to_vec(),
        Vec::new(),
        vec![0xC3, 0xA9],
        vec![0xE0, 0xA0, 0x80],
        vec![0xE0, 0x9F, 0x80],
        vec![0xED, 0x9F, 0xBF],
        vec![0xED, 0xA0, 0x80],
        vec![0xF0, 0x90, 0x80, 0x80],
        vec![0xF0, 0x8F, 0x80, 0x80],
        vec![0xF4, 0x8F, 0xBF, 0xBF],
        vec![0xF4, 0x90, 0x80, 0x80],
        vec![0x80],
        vec![0xC2],
        vec![0xC2, 0x41],
        vec![0xFF, 0xFE],
        vec![0x41, 0xC3, 0xA9, 0x42],
    ];
    for case in cases {
        assert_eq!(
            validate_utf8(&case),
            std::str::from_utf8(&case).is_ok(),
            "disagreement on {:?}",
            case
        );
    }
}
