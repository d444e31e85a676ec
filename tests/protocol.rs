use byteorder::{LittleEndian, WriteBytesExt};
use cxdb::error::Error;
use cxdb::protocol::{
    decode_frame_header, hello_payload, hello_session_id, parse_server_error, read_frame,
    response_result, write_frame, ByteCursor, Frame, FrameHeader, MAX_FRAME_SIZE, MSG_ERROR,
    MSG_HELLO,
};

#[test]
fn hello_payload_matches_go_format() {
    let tag = "";
    let mut payload = Vec::new();
    payload.write_u16::<LittleEndian>(1).unwrap();
    payload.write_u16::<LittleEndian>(0).unwrap();
    payload.write_u32::<LittleEndian>(0).unwrap();
    assert_eq!(payload, hello_payload(tag));

    let tag = "test-client";
    let mut payload = Vec::new();
    payload.write_u16::<LittleEndian>(1).unwrap();
    payload.write_u16::<LittleEndian>(tag.len() as u16).unwrap();
    payload.extend_from_slice(tag.as_bytes());
    payload.write_u32::<LittleEndian>(0).unwrap();
    assert_eq!(payload, hello_payload(tag));
}

struct Fixture {
    msg_type: u16,
    flags: u16,
    payload_hex: &'static str,
}

fn load_fixture(name: &str) -> Fixture {
    match name {
        "hello_empty" => Fixture { msg_type: MSG_HELLO, flags: 0, payload_hex: "0100000000000000" },
        "hello_tag" => Fixture {
            msg_type: MSG_HELLO,
            flags: 0,
            payload_hex: "01000b00746573742d636c69656e7400000000",
        },
        other => panic!("no fixture {other}"),
    }
}

fn decode_hex(s: &str) -> Vec<u8> {
    (0..s.len()).step_by(2).map(|i| u8::from_str_radix(&s[i..i + 2], 16).unwrap()).collect()
}

#[test]
fn hello_payloads_match_fixtures() {
    let fixture = load_fixture("hello_empty");
    assert_eq!(fixture.msg_type, MSG_HELLO);
    assert_eq!(fixture.flags, 0);
    assert_eq!(decode_hex(&fixture.payload_hex), hello_payload(""));

    let fixture = load_fixture("hello_tag");
    assert_eq!(fixture.msg_type, MSG_HELLO);
    assert_eq!(fixture.flags, 0);
    assert_eq!(
        decode_hex(&fixture.payload_hex),
        hello_payload("test-client")
    );
}

#[test]
fn frame_header_roundtrip() {
    let mut buf = Vec::new();
    let payload = b"abc";
    write_frame(&mut buf, 5, 0, 42, payload).unwrap();
    let mut cursor = ByteCursor::new(buf);
    let frame = read_frame(&mut cursor).unwrap();
    assert_eq!(
        frame.header,
        FrameHeader {
            len: payload.len() as u32,
            msg_type: 5,
            flags: 0,
            req_id: 42,
        }
    );
    assert_eq!(frame.payload, payload);
}

#[test]
fn truncated_header_is_invalid_response() {
    let data = vec![0u8; 3];
    let mut cursor = ByteCursor::new(data);
    let err = read_frame(&mut cursor).unwrap_err();
    assert!(matches!(err, Error::InvalidResponse(_)));
}

#[test]
fn oversized_frame_is_rejected() {
    let mut buf = Vec::new();
    buf.write_u32::<LittleEndian>(MAX_FRAME_SIZE + 1).unwrap();
    buf.write_u16::<LittleEndian>(MSG_HELLO).unwrap();
    buf.write_u16::<LittleEndian>(0).unwrap();
    buf.write_u64::<LittleEndian>(1).unwrap();
    let mut cursor = ByteCursor::new(buf);
    let err = read_frame(&mut cursor).unwrap_err();
    assert!(matches!(err, Error::InvalidResponse(_)));
}

#[test]
fn truncated_payload_is_invalid_response() {
    let mut buf = Vec::new();
    buf.write_u32::<LittleEndian>(4).unwrap();
    buf.write_u16::<LittleEndian>(MSG_HELLO).unwrap();
    buf.write_u16::<LittleEndian>(0).unwrap();
    buf.write_u64::<LittleEndian>(1).unwrap();
    buf.extend_from_slice(&[1, 2]);
    let mut cursor = ByteCursor::new(buf);
    let err = read_frame(&mut cursor).unwrap_err();
    assert!(matches!(err, Error::InvalidResponse(_)));
}

#[test]
fn frame_bytes_are_little_endian() {
    let mut buf = Vec::new();
    write_frame(&mut buf, 0x0102, 0x0304, 0x0506070809, b"xy").unwrap();
    assert_eq!(
        buf,
        vec![2, 0, 0, 0, 0x02, 0x01, 0x04, 0x03, 0x09, 0x08, 0x07, 0x06, 0x05, 0, 0, 0, b'x', b'y']
    );
}

#[test]
fn two_frames_read_in_sequence() {
    let mut buf = Vec::new();
    write_frame(&mut buf, 1, 0, 7, b"first").unwrap();
    write_frame(&mut buf, 2, 0, 8, b"").unwrap();
    let mut cursor = ByteCursor::new(buf);
    let a = read_frame(&mut cursor).unwrap();
    let b = read_frame(&mut cursor).unwrap();
    assert_eq!((a.header.msg_type, a.header.req_id, a.payload), (1, 7, b"first".to_vec()));
    assert_eq!((b.header.msg_type, b.header.req_id, b.payload.len()), (2, 8, 0));
    assert_eq!(cursor.remaining(), 0);
    assert!(read_frame(&mut cursor).is_err());
}

#[test]
fn failed_read_leaves_cursor_in_place() {
    let mut buf = Vec::new();
    buf.write_u32::<LittleEndian>(10).unwrap();
    buf.extend_from_slice(&[0u8; 12]);
    buf.extend_from_slice(&[9u8; 3]);
    let mut cursor = ByteCursor::new(buf);
    assert!(read_frame(&mut cursor).is_err());
    assert_eq!(cursor.remaining(), 19);
}

#[test]
fn largest_payload_round_trips_and_larger_is_refused() {
    let payload = vec![7u8; MAX_FRAME_SIZE as usize];
    let mut buf = Vec::new();
    write_frame(&mut buf, 3, 0, 1, &payload).unwrap();
    let mut cursor = ByteCursor::new(buf);
    let frame = read_frame(&mut cursor).unwrap();
    assert_eq!(frame.header.len, MAX_FRAME_SIZE);
    assert_eq!(frame.payload.len(), MAX_FRAME_SIZE as usize);

    let too_big = vec![0u8; MAX_FRAME_SIZE as usize + 1];
    let mut out = Vec::new();
    let err = write_frame(&mut out, 3, 0, 1, &too_big).unwrap_err();
    assert!(matches!(err, Error::Io(_)));
    assert!(out.is_empty());
}

#[test]
fn header_decoding_checks_length() {
    let mut buf = Vec::new();
    write_frame(&mut buf, 9, 1, 77, b"zz").unwrap();
    let h = decode_frame_header(&buf[..16]).unwrap();
    assert_eq!(h, FrameHeader { len: 2, msg_type: 9, flags: 1, req_id: 77 });
    assert!(matches!(decode_frame_header(&buf[..15]), Err(Error::InvalidResponse(_))));
}

#[test]
fn hello_reply_gives_session_id() {
    let mut resp = Vec::new();
    resp.write_u64::<LittleEndian>(123).unwrap();
    resp.write_u16::<LittleEndian>(1).unwrap();
    let frame = Frame {
        header: FrameHeader { len: resp.len() as u32, msg_type: MSG_HELLO, flags: 0, req_id: 1 },
        payload: resp,
    };
    assert_eq!(hello_session_id(&frame).unwrap(), Some(123));

    let short = Frame {
        header: FrameHeader { len: 2, msg_type: MSG_HELLO, flags: 0, req_id: 1 },
        payload: vec![1, 0],
    };
    assert_eq!(hello_session_id(&short).unwrap(), None);

    let other = Frame {
        header: FrameHeader { len: 0, msg_type: 5, flags: 0, req_id: 1 },
        payload: vec![],
    };
    assert!(matches!(hello_session_id(&other), Err(Error::InvalidResponse(_))));
}

#[test]
fn error_frame_yields_server_error() {
    let mut err_payload = Vec::new();
    err_payload.write_u32::<LittleEndian>(404).unwrap();
    let detail = b"not found";
    err_payload.write_u32::<LittleEndian>(detail.len() as u32).unwrap();
    err_payload.extend_from_slice(detail);
    let frame = Frame {
        header: FrameHeader { len: err_payload.len() as u32, msg_type: MSG_ERROR, flags: 0, req_id: 1 },
        payload: err_payload,
    };
    match response_result(frame) {
        Err(Error::Server(server)) => {
            assert_eq!(server.code, 404);
            assert_eq!(server.detail, "not found");
        }
        other => panic!("expected server error, got {other:?}"),
    }
}

#[test]
fn other_frames_pass_through() {
    let frame = Frame {
        header: FrameHeader { len: 1, msg_type: 2, flags: 0, req_id: 3 },
        payload: vec![4],
    };
    let out = response_result(frame).unwrap();
    assert_eq!(out.payload, vec![4]);
}

#[test]
fn server_error_edge_cases() {
    match parse_server_error(&[1, 2, 3]) {
        Error::Server(s) => {
            assert_eq!(s.code, 0);
            assert_eq!(s.detail, "unknown error");
        }
        other => panic!("unexpected {other:?}"),
    }
    let mut p = Vec::new();
    p.write_u32::<LittleEndian>(7).unwrap();
    p.write_u32::<LittleEndian>(10).unwrap();
    p.extend_from_slice(b"abc");
    match parse_server_error(&p) {
        Error::Server(s) => {
            assert_eq!(s.code, 7);
            assert_eq!(s.detail, "");
        }
        other => panic!("unexpected {other:?}"),
    }
    let mut q = Vec::new();
    q.write_u32::<LittleEndian>(500).unwrap();
    q.write_u32::<LittleEndian>(3).unwrap();
    q.extend_from_slice(&[b'o', 0xff, b'k']);
    match parse_server_error(&q) {
        Error::Server(s) => {
            assert_eq!(s.code, 500);
            assert_eq!(s.detail, "o\u{fffd}k");
        }
        other => panic!("unexpected {other:?}"),
    }
}

#[test]
fn server_error_detail_is_decoded_text() {
    let mut p = Vec::new();
    p.write_u32::<LittleEndian>(404).unwrap();
    p.write_u32::<LittleEndian>(6).unwrap();
    p.extend_from_slice("héllo".as_bytes());
    match parse_server_error(&p) {
        Error::Server(s) => assert_eq!((s.code, s.detail.as_str()), (404, "héllo")),
        other => panic!("unexpected {other:?}"),
    }
}
