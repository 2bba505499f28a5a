use crate::error::Error;
use byteorder::{ByteOrder, LittleEndian};
use vstd::prelude::*;
use vstd::string::*;
use vstd::utf8::*;

verus! {

pub const SERVERDATA_AUTH: i32 = 3;

pub const SERVERDATA_AUTH_RESPONSE: i32 = 2;

pub const SERVERDATA_EXECCOMMAND: i32 = 2;

pub const SERVERDATA_RESPONSE_VALUE: i32 = 0;

/// Type of the packets that the server pushes unasked for chat messages.
pub const SERVERDATA_CHAT: i32 = 1;

/// The largest body, in bytes, whose frame size still fits the signed 32-bit size field.
pub const MAX_BODY_LEN: usize = 2147483637;

/// The value of four bytes read as a little-endian two's-complement integer.
pub open spec fn le_i32_of(b: Seq<u8>) -> int {
    let u = b[0] as int + 256 * b[1] as int + 65536 * b[2] as int + 16777216 * b[3] as int;
    if u >= 0x8000_0000 {
        u - 0x1_0000_0000
    } else {
        u
    }
}

/// A packet as a mathematical value.
pub struct PacketView {
    pub id: int,
    pub type_: int,
    pub body: Seq<char>,
}

/// `f` is the wire frame of `p`: size, id and type as little-endian 32-bit
/// integers, the UTF-8 body, and two zero bytes.
pub open spec fn is_frame_of(f: Seq<u8>, p: PacketView) -> bool {
    let body = encode_utf8(p.body);
    let n = body.len() as int;
    &&& f.len() == body.len() + 14
    &&& le_i32_of(f.subrange(0, 4)) == body.len() + 10
    &&& le_i32_of(f.subrange(4, 8)) == p.id
    &&& le_i32_of(f.subrange(8, 12)) == p.type_
    &&& f.subrange(12, 12 + n) == body
    &&& f[12 + n] == 0
    &&& f[13 + n] == 0
}

/// The size field of a frame: the number of bytes that follow it.
pub open spec fn frame_size(f: Seq<u8>) -> int {
    le_i32_of(f.subrange(0, 4))
}

/// A frame that is too short for its header, or whose size field is below the
/// ten header bytes, or disagrees with the frame's length.
pub open spec fn is_malformed(f: Seq<u8>) -> bool {
    f.len() < 4 || frame_size(f) < 10 || f.len() != frame_size(f) + 4
}

/// The body bytes of a frame: between the header and the two-byte terminator.
pub open spec fn body_bytes(f: Seq<u8>) -> Seq<u8> {
    f.subrange(12, f.len() - 2)
}

/// The packet that a well-formed frame with a UTF-8 body carries.
pub open spec fn decoded_view(f: Seq<u8>) -> PacketView {
    PacketView {
        id: le_i32_of(f.subrange(4, 8)),
        type_: le_i32_of(f.subrange(8, 12)),
        body: decode_utf8(body_bytes(f)),
    }
}

/// Relies on byteorder's `LittleEndian::write_i32`: the four bytes of `n`,
/// least significant first.
#[verifier::external_body]
fn i32_to_le(n: i32) -> (r: [u8; 4])
    ensures
        le_i32_of(r@) == n as int,
{
    let mut buf = [0u8; 4];
    LittleEndian::write_i32(&mut buf, n);
    buf
}

/// Relies on byteorder's `LittleEndian::read_i32`: the first four bytes of
/// `b`, least significant first. It panics on fewer than four.
#[verifier::external_body]
fn le_to_i32(b: &[u8]) -> (r: i32)
    requires
        b@.len() >= 4,
    ensures
        r as int == le_i32_of(b@),
{
    LittleEndian::read_i32(b)
}

/// Relies on `String::from_utf8`: `Ok` exactly when the bytes are valid
/// UTF-8, holding the characters that they encode.
#[verifier::external_body]
fn string_from_utf8(bytes: Vec<u8>) -> (r: Result<String, std::string::FromUtf8Error>)
    ensures
        r is Ok <==> valid_utf8(bytes@),
        r is Ok ==> r->Ok_0@ == decode_utf8(bytes@),
{
    String::from_utf8(bytes)
}

fn push_word(data: &mut Vec<u8>, w: [u8; 4])
    ensures
        final(data)@ == old(data)@ + w@,
{
    data.push(w[0]);
    data.push(w[1]);
    data.push(w[2]);
    data.push(w[3]);
    assert(final(data)@ =~= old(data)@ + w@);
}

/// The number of bytes that follow the size field of a frame, read from the
/// frame's first four bytes. A size below the ten header bytes is refused.
pub fn frame_len(header: &[u8]) -> (r: Result<usize, Error>)
    ensures
        match r {
            Ok(k) => header@.len() >= 4 && frame_size(header@) >= 10 && k == frame_size(header@),
            Err(e) => e is ProtocolError && (header@.len() < 4 || frame_size(header@) < 10),
        },
{
    if header.len() < 4 {
        return Err(Error::ProtocolError);
    }
    let size = le_to_i32(&header[0..4]);
    if size < 10 {
        return Err(Error::ProtocolError);
    }
    Ok(size as usize)
}

/// A packet as sent or received under the RCON protocol.
#[derive(Clone, Debug)]
pub struct RconPacket {
    id: i32,
    type_: i32,
    body: String,
}

impl View for RconPacket {
    type V = PacketView;

    closed spec fn view(&self) -> PacketView {
        PacketView { id: self.id as int, type_: self.type_ as int, body: self.body@ }
    }
}

impl RconPacket {
    pub fn new(id: i32, type_: i32, body: String) -> (r: RconPacket)
        ensures
            r@ == (PacketView { id: id as int, type_: type_ as int, body: body@ }),
    {
        RconPacket { id: id, type_: type_, body: body }
    }

    pub fn id(&self) -> (r: i32)
        ensures
            r as int == self@.id,
    {
        self.id
    }

    pub fn type_(&self) -> (r: i32)
        ensures
            r as int == self@.type_,
    {
        self.type_
    }

    pub fn body(&self) -> (r: &str)
        ensures
            r@ == self@.body,
    {
        self.body.as_str()
    }

    pub fn into_body(self) -> (r: String)
        ensures
            r@ == self@.body,
    {
        self.body
    }

    /// The wire frame of this packet. A body whose frame size would not fit
    /// the 32-bit size field is refused rather than truncated.
    pub fn encode(&self) -> (r: Result<Vec<u8>, Error>)
        ensures
            match r {
                Ok(bytes) => encode_utf8(self@.body).len() <= MAX_BODY_LEN && is_frame_of(
                    bytes@,
                    self@,
                ),
                Err(e) => encode_utf8(self@.body).len() > MAX_BODY_LEN && e is ProtocolError,
            },
    {
        let bytes = self.body.as_str().as_bytes();
        let n = bytes.len();
        if n > MAX_BODY_LEN {
            return Err(Error::ProtocolError);
        }
        let mut data: Vec<u8> = Vec::new();
        push_word(&mut data, i32_to_le((n + 10) as i32));
        push_word(&mut data, i32_to_le(self.id));
        push_word(&mut data, i32_to_le(self.type_));
        let ghost header = data@;
        let mut i: usize = 0;
        while i < n
            invariant
                i <= n,
                n == bytes@.len(),
                header.len() == 12,
                data@ == header + bytes@.subrange(0, i as int),
            decreases n - i,
        {
            data.push(bytes[i]);
            i = i + 1;
            assert(data@ =~= header + bytes@.subrange(0, i as int));
        }
        data.push(0);
        data.push(0);
        let ghost f = data@;
        assert(f.subrange(0, 4) =~= header.subrange(0, 4));
        assert(f.subrange(4, 8) =~= header.subrange(4, 8));
        assert(f.subrange(8, 12) =~= header.subrange(8, 12));
        assert(f.subrange(12, 12 + n) =~= bytes@);
        Ok(data)
    }

    /// Reads a packet from one whole frame: the size field and the bytes that
    /// it announces. The terminator bytes are not checked.
    pub fn decode(frame: &[u8]) -> (r: Result<RconPacket, Error>)
        ensures
            match r {
                Ok(p) => !is_malformed(frame@) && valid_utf8(body_bytes(frame@)) && p@
                    == decoded_view(frame@),
                Err(e) => (is_malformed(frame@) && e is ProtocolError) || (!is_malformed(frame@)
                    && !valid_utf8(body_bytes(frame@)) && e is FromUtf8Error),
            },
    {
        let n = frame.len();
        if n < 4 {
            return Err(Error::ProtocolError);
        }
        let size = le_to_i32(&frame[0..4]);
        if size < 10 || n - 4 != size as usize {
            return Err(Error::ProtocolError);
        }
        let id = le_to_i32(&frame[4..8]);
        let type_ = le_to_i32(&frame[8..12]);
        let end = n - 2;
        let mut body: Vec<u8> = Vec::new();
        let mut j: usize = 12;
        while j < end
            invariant
                12 <= j <= end,
                end == frame@.len() - 2,
                body@ == frame@.subrange(12, j as int),
            decreases end - j,
        {
            body.push(frame[j]);
            j = j + 1;
            assert(body@ =~= frame@.subrange(12, j as int));
        }
        match string_from_utf8(body) {
            Ok(text) => Ok(RconPacket { id: id, type_: type_, body: text }),
            Err(e) => Err(Error::FromUtf8Error(e)),
        }
    }
}

/// A frame that `encode` writes is read back by `decode` as the same packet.
pub proof fn lemma_decode_encode(p: PacketView, f: Seq<u8>)
    requires
        is_frame_of(f, p),
    ensures
        !is_malformed(f),
        valid_utf8(body_bytes(f)),
        decoded_view(f) == p,
{
    broadcast use encode_utf8_valid_utf8, encode_utf8_decode_utf8;

    let body = encode_utf8(p.body);
    assert(body_bytes(f) =~= body);
}

} // verus!
