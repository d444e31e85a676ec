//! The frame codec of the wire protocol, and the payloads of the session
//! handshake and of server errors.
//!
//! A frame is `u32 len | u16 msg_type | u16 flags | u64 req_id | payload`,
//! every integer little-endian, `len` the payload's length.

use vstd::prelude::*;
use vstd::bytes::*;
use vstd::slice::{slice_subrange, slice_to_vec};
use vstd::string::StringSliceAdditionalSpecFns;
use vstd::utf8::{decode_utf8, valid_utf8};
use crate::error::{Error, ServerError};

verus! {

/// The largest payload a frame may carry.
pub const MAX_FRAME_SIZE: u32 = 16 * 1024 * 1024;

/// Bytes before the payload: length, type, flags and request id.
pub const FRAME_HEADER_LEN: usize = 16;

pub const MSG_HELLO: u16 = 1;
pub const MSG_CTX_CREATE: u16 = 2;
pub const MSG_CTX_FORK: u16 = 3;
pub const MSG_GET_HEAD: u16 = 4;
pub const MSG_APPEND_TURN: u16 = 5;
pub const MSG_GET_LAST: u16 = 6;
pub const MSG_GET_BLOB: u16 = 9;
pub const MSG_ATTACH_FS: u16 = 10;
pub const MSG_PUT_BLOB: u16 = 11;
pub const MSG_ERROR: u16 = 255;

/// The protocol version sent in the handshake.
pub const PROTOCOL_VERSION: u16 = 1;

/// The fixed-size part of a frame.
#[derive(Debug, Clone, Copy, PartialEq, Eq, Structural)]
pub struct FrameHeader {
    pub len: u32,
    pub msg_type: u16,
    pub flags: u16,
    pub req_id: u64,
}

/// A decoded frame.
#[derive(Debug, Clone)]
pub struct Frame {
    pub header: FrameHeader,
    pub payload: Vec<u8>,
}

/// The 16 header bytes for the given fields.
pub open spec fn header_bytes(h: FrameHeader) -> Seq<u8> {
    spec_u32_to_le_bytes(h.len) + spec_u16_to_le_bytes(h.msg_type) + spec_u16_to_le_bytes(h.flags)
        + spec_u64_to_le_bytes(h.req_id)
}

/// The header that the 16 bytes at the front of `s` hold.
pub open spec fn header_of(s: Seq<u8>) -> FrameHeader {
    FrameHeader {
        len: spec_u32_from_le_bytes(s.subrange(0, 4)),
        msg_type: spec_u16_from_le_bytes(s.subrange(4, 6)),
        flags: spec_u16_from_le_bytes(s.subrange(6, 8)),
        req_id: spec_u64_from_le_bytes(s.subrange(8, 16)),
    }
}

/// The bytes of one frame carrying `payload`.
pub open spec fn frame_bytes(msg_type: u16, flags: u16, req_id: u64, payload: Seq<u8>) -> Seq<u8> {
    header_bytes(FrameHeader { len: payload.len() as u32, msg_type, flags, req_id }) + payload
}

/// What reading one frame from the front of `s` yields: its header and
/// payload, or `None` where the header is short, the length is over
/// [`MAX_FRAME_SIZE`], or the payload is cut off.
pub open spec fn frame_at(s: Seq<u8>) -> Option<(FrameHeader, Seq<u8>)> {
    if s.len() < FRAME_HEADER_LEN {
        None
    } else {
        let h = header_of(s);
        if h.len > MAX_FRAME_SIZE || s.len() < FRAME_HEADER_LEN + h.len {
            None
        } else {
            Some((h, s.subrange(FRAME_HEADER_LEN as int, FRAME_HEADER_LEN + h.len)))
        }
    }
}

/// A read position over bytes received from a stream.
pub struct ByteCursor {
    data: Vec<u8>,
    pos: usize,
}

impl ByteCursor {
    /// The bytes not read yet.
    pub closed spec fn rest(&self) -> Seq<u8> {
        if self.pos <= self.data@.len() {
            self.data@.subrange(self.pos as int, self.data@.len() as int)
        } else {
            Seq::empty()
        }
    }

    pub fn new(data: Vec<u8>) -> (r: ByteCursor)
        ensures
            r.rest() == data@,
    {
        let r = ByteCursor { data, pos: 0 };
        assert(r.rest() =~= r.data@);
        r
    }

    /// How many bytes are left to read.
    pub fn remaining(&self) -> (r: usize)
        ensures
            r == self.rest().len(),
    {
        if self.pos <= self.data.len() {
            self.data.len() - self.pos
        } else {
            0
        }
    }
}

fn push_all(out: &mut Vec<u8>, bytes: &[u8])
    ensures
        final(out)@ == old(out)@ + bytes@,
{
    out.extend_from_slice(bytes);
}

/// Appends one frame carrying `payload` to `sink`.
///
/// A payload over [`MAX_FRAME_SIZE`] is refused with an invalid-input I/O
/// error and nothing is written.
pub fn write_frame(sink: &mut Vec<u8>, msg_type: u16, flags: u16, req_id: u64, payload: &[u8]) -> (r: Result<(), Error>)
    ensures
        payload@.len() <= MAX_FRAME_SIZE ==> r is Ok && final(sink)@ == old(sink)@ + frame_bytes(
            msg_type,
            flags,
            req_id,
            payload@,
        ),
        payload@.len() > MAX_FRAME_SIZE ==> (r matches Err(Error::Io(io)) && io.kind
            == crate::error::IoErrorKind::InvalidInput) && final(sink)@ == old(sink)@,
{
    if payload.len() > MAX_FRAME_SIZE as usize {
        return Err(Error::Io(crate::error::IoError::new(crate::error::IoErrorKind::InvalidInput, "frame too large")));
    }
    let len = payload.len() as u32;
    let a = u32_to_le_bytes(len);
    let b = u16_to_le_bytes(msg_type);
    let c = u16_to_le_bytes(flags);
    let d = u64_to_le_bytes(req_id);
    push_all(sink, a.as_slice());
    push_all(sink, b.as_slice());
    push_all(sink, c.as_slice());
    push_all(sink, d.as_slice());
    push_all(sink, payload);
    assert(payload@.len() as u32 == len);
    Ok(())
}

/// Reads `u16`, `u32` and `u64` little-endian values at `off` in `data`.
fn u16_at(data: &[u8], off: usize) -> (r: u16)
    requires
        off + 2 <= data@.len(),
    ensures
        r == spec_u16_from_le_bytes(data@.subrange(off as int, off + 2)),
{
    let _n = data.len();
    u16_from_le_bytes(slice_subrange(data, off, off + 2))
}

fn u32_at(data: &[u8], off: usize) -> (r: u32)
    requires
        off + 4 <= data@.len(),
    ensures
        r == spec_u32_from_le_bytes(data@.subrange(off as int, off + 4)),
{
    let _n = data.len();
    u32_from_le_bytes(slice_subrange(data, off, off + 4))
}

fn u64_at(data: &[u8], off: usize) -> (r: u64)
    requires
        off + 8 <= data@.len(),
    ensures
        r == spec_u64_from_le_bytes(data@.subrange(off as int, off + 8)),
{
    let _n = data.len();
    u64_from_le_bytes(slice_subrange(data, off, off + 8))
}

/// Decodes the 16 header bytes at the front of `bytes`, refusing a length
/// over [`MAX_FRAME_SIZE`].
pub fn decode_frame_header(bytes: &[u8]) -> (r: Result<FrameHeader, Error>)
    ensures
        bytes@.len() < FRAME_HEADER_LEN ==> (r matches Err(Error::InvalidResponse(_))),
        bytes@.len() >= FRAME_HEADER_LEN ==> {
            let h = header_of(bytes@);
            &&& h.len > MAX_FRAME_SIZE ==> (r matches Err(Error::InvalidResponse(_)))
            &&& h.len <= MAX_FRAME_SIZE ==> r == Ok::<FrameHeader, Error>(h)
        },
{
    if bytes.len() < FRAME_HEADER_LEN {
        return Err(Error::invalid_response("short frame header"));
    }
    let h = FrameHeader {
        len: u32_at(bytes, 0),
        msg_type: u16_at(bytes, 4),
        flags: u16_at(bytes, 6),
        req_id: u64_at(bytes, 8),
    };
    if h.len > MAX_FRAME_SIZE {
        return Err(Error::invalid_response("frame exceeds maximum size"));
    }
    Ok(h)
}

/// Reads one frame from the cursor.
///
/// On success the cursor moves past the frame; on failure, always an
/// invalid response, it stays where it was.
pub fn read_frame(source: &mut ByteCursor) -> (r: Result<Frame, Error>)
    ensures
        match frame_at(old(source).rest()) {
            None => (r matches Err(Error::InvalidResponse(_))) && final(source).rest() == old(source).rest(),
            Some((h, p)) => (r matches Ok(f) && f.header == h && f.payload@ == p)
                && final(source).rest() == old(source).rest().skip(FRAME_HEADER_LEN + h.len),
        },
{
    let avail = source.remaining();
    if avail < FRAME_HEADER_LEN {
        return Err(Error::invalid_response("short frame header"));
    }
    let start = source.pos;
    let _total = source.data.len();
    let ghost rest = source.rest();
    let window = slice_subrange(source.data.as_slice(), start, start + FRAME_HEADER_LEN);
    assert(window@ =~= rest.subrange(0, 16));
    assert(window@.subrange(0, 4) =~= rest.subrange(0, 4));
    assert(window@.subrange(4, 6) =~= rest.subrange(4, 6));
    assert(window@.subrange(6, 8) =~= rest.subrange(6, 8));
    assert(window@.subrange(8, 16) =~= rest.subrange(8, 16));
    let h = match decode_frame_header(window) {
        Ok(h) => h,
        Err(e) => {
            assert(header_of(window@) == header_of(rest));
            return Err(e);
        },
    };
    assert(header_of(window@) == header_of(rest));
    let len = h.len as usize;
    if avail - FRAME_HEADER_LEN < len {
        return Err(Error::invalid_response("truncated frame payload"));
    }
    let body_start = start + FRAME_HEADER_LEN;
    let payload = slice_to_vec(slice_subrange(source.data.as_slice(), body_start, body_start + len));
    assert(payload@ =~= rest.subrange(FRAME_HEADER_LEN as int, FRAME_HEADER_LEN + h.len));
    source.pos = body_start + len;
    assert(source.rest() =~= rest.skip(FRAME_HEADER_LEN + h.len));
    Ok(Frame { header: h, payload })
}

/// The handshake payload announcing protocol version 1 and the client tag:
/// `u16 version | u16 tag_len | tag | u32 metadata_len = 0`.
pub open spec fn hello_bytes(tag: Seq<u8>) -> Seq<u8> {
    spec_u16_to_le_bytes(PROTOCOL_VERSION) + spec_u16_to_le_bytes(tag.len() as u16) + tag
        + spec_u32_to_le_bytes(0)
}

/// Builds the handshake payload for `tag`, whose UTF-8 length must fit the
/// 16-bit length field.
pub fn hello_payload(tag: &str) -> (r: Vec<u8>)
    requires
        tag.spec_bytes().len() <= u16::MAX,
    ensures
        r@ == hello_bytes(tag.spec_bytes()),
{
    let bytes = tag.as_bytes();
    let mut out: Vec<u8> = Vec::new();
    let v = u16_to_le_bytes(PROTOCOL_VERSION);
    let n = u16_to_le_bytes(bytes.len() as u16);
    let m = u32_to_le_bytes(0);
    push_all(&mut out, v.as_slice());
    push_all(&mut out, n.as_slice());
    push_all(&mut out, bytes);
    push_all(&mut out, m.as_slice());
    out
}

/// What the handshake reply means: the session id held in its first eight
/// payload bytes, when there are eight, or an invalid response when the
/// reply is not a handshake frame.
pub open spec fn hello_outcome(msg_type: u16, payload: Seq<u8>) -> Option<Option<u64>> {
    if msg_type != MSG_HELLO {
        None
    } else if payload.len() >= 8 {
        Some(Some(spec_u64_from_le_bytes(payload.subrange(0, 8))))
    } else {
        Some(None)
    }
}

/// Reads the session id out of a handshake reply.
pub fn hello_session_id(frame: &Frame) -> (r: Result<Option<u64>, Error>)
    ensures
        match hello_outcome(frame.header.msg_type, frame.payload@) {
            None => r matches Err(Error::InvalidResponse(_)),
            Some(id) => r == Ok::<Option<u64>, Error>(id),
        },
{
    if frame.header.msg_type != MSG_HELLO {
        return Err(Error::invalid_response("unexpected response type"));
    }
    if frame.payload.len() >= 8 {
        Ok(Some(u64_at(frame.payload.as_slice(), 0)))
    } else {
        Ok(None)
    }
}

/// What `String::from_utf8_lossy` returns for the given bytes.
pub uninterp spec fn utf8_lossy_of(b: Seq<u8>) -> Seq<char>;

/// Relies on `String::from_utf8_lossy`: valid UTF-8 is decoded as it
/// stands; invalid sequences become replacement characters.
#[verifier::external_body]
fn utf8_lossy(b: &[u8]) -> (r: String)
    ensures
        r@ == utf8_lossy_of(b@),
        valid_utf8(b@) ==> r@ == decode_utf8(b@),
{
    String::from_utf8_lossy(b).into_owned()
}

/// The code and detail that a server error payload
/// `u32 code | u32 detail_len | detail` carries. A payload under eight bytes
/// reads as code 0, "unknown error"; a detail cut short reads as empty.
pub open spec fn server_error_of(p: Seq<u8>) -> (u32, Seq<char>) {
    if p.len() < 8 {
        (0, "unknown error"@)
    } else {
        let code = spec_u32_from_le_bytes(p.subrange(0, 4));
        let n = spec_u32_from_le_bytes(p.subrange(4, 8));
        if p.len() >= 8 + n {
            (code, utf8_lossy_of(p.subrange(8, 8 + n)))
        } else {
            (code, Seq::empty())
        }
    }
}

/// The detail bytes an error payload announces.
pub open spec fn detail_bytes(p: Seq<u8>) -> Seq<u8> {
    p.subrange(8, 8 + spec_u32_from_le_bytes(p.subrange(4, 8)))
}

/// An error payload whose detail is all there and is valid UTF-8.
pub open spec fn detail_is_text(p: Seq<u8>) -> bool {
    p.len() >= 8 && p.len() >= 8 + spec_u32_from_le_bytes(p.subrange(4, 8)) && valid_utf8(detail_bytes(p))
}

/// Decodes the payload of an error frame.
pub fn parse_server_error(payload: &[u8]) -> (r: Error)
    ensures
        r matches Error::Server(s) && (s.code, s.detail@) == server_error_of(payload@),
        detail_is_text(payload@) ==> (r matches Error::Server(s) && s.detail@ == decode_utf8(detail_bytes(payload@))),
{
    let total = payload.len();
    if total < 8 {
        return Error::server(0, "unknown error".to_string());
    }
    let code = u32_at(payload, 0);
    let n = u32_at(payload, 4) as usize;
    let detail = if total - 8 >= n {
        utf8_lossy(slice_subrange(payload, 8, 8 + n))
    } else {
        String::new()
    };
    Error::server(code, detail)
}

/// Turns a response frame into the request's result: an error frame fails
/// with the server's code and detail, any other frame is the answer.
pub fn response_result(frame: Frame) -> (r: Result<Frame, Error>)
    ensures
        frame.header.msg_type == MSG_ERROR ==> (r matches Err(Error::Server(s)) && (s.code, s.detail@)
            == server_error_of(frame.payload@)),
        frame.header.msg_type == MSG_ERROR && detail_is_text(frame.payload@) ==> (r matches Err(Error::Server(s))
            && s.detail@ == decode_utf8(detail_bytes(frame.payload@))),
        frame.header.msg_type != MSG_ERROR ==> r == Ok::<Frame, Error>(frame),
{
    if frame.header.msg_type == MSG_ERROR {
        Err(parse_server_error(frame.payload.as_slice()))
    } else {
        Ok(frame)
    }
}

/// Reading back the bytes of a frame yields its fields and payload, and
/// leaves whatever followed it unread.
pub proof fn lemma_frame_round_trip(msg_type: u16, flags: u16, req_id: u64, payload: Seq<u8>, tail: Seq<u8>)
    requires
        payload.len() <= MAX_FRAME_SIZE,
    ensures
        ({
            let s = frame_bytes(msg_type, flags, req_id, payload) + tail;
            let h = FrameHeader { len: payload.len() as u32, msg_type, flags, req_id };
            &&& frame_at(s) == Some((h, payload))
            &&& s.skip(FRAME_HEADER_LEN + h.len) == tail
        }),
{
    let h = FrameHeader { len: payload.len() as u32, msg_type, flags, req_id };
    let s = frame_bytes(msg_type, flags, req_id, payload) + tail;
    lemma_auto_spec_u16_to_from_le_bytes();
    lemma_auto_spec_u32_to_from_le_bytes();
    lemma_auto_spec_u64_to_from_le_bytes();
    let hb = header_bytes(h);
    assert(hb.len() == 16);
    assert(s.subrange(0, 4) =~= spec_u32_to_le_bytes(h.len));
    assert(s.subrange(4, 6) =~= spec_u16_to_le_bytes(msg_type));
    assert(s.subrange(6, 8) =~= spec_u16_to_le_bytes(flags));
    assert(s.subrange(8, 16) =~= spec_u64_to_le_bytes(req_id));
    assert(header_of(s) == h);
    assert(s.subrange(16, 16 + h.len) =~= payload);
    assert(s.skip(16 + h.len) =~= tail);
}

/// A frame is refused when its header is cut short, when its length is over
/// [`MAX_FRAME_SIZE`], and when its payload is cut short.
pub proof fn lemma_frame_limits(s: Seq<u8>)
    ensures
        s.len() < FRAME_HEADER_LEN ==> frame_at(s) is None,
        s.len() >= FRAME_HEADER_LEN && header_of(s).len > MAX_FRAME_SIZE ==> frame_at(s) is None,
        s.len() >= FRAME_HEADER_LEN && s.len() < FRAME_HEADER_LEN + header_of(s).len ==> frame_at(s) is None,
{
}

} // verus!
