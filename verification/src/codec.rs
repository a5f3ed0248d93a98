//! The fixed-header binary frame format.
//!
//! A frame is `version ‖ msg_type ‖ flags ‖ u32_be(len(payload)) ‖ payload`.
//! `spec_encode` and `spec_decode` give the mathematical meaning of both
//! directions; the executable functions are proved against them, and
//! `lemma_encode_decode_roundtrip` proves that decoding an encoded frame
//! gives back the original message.

use vstd::prelude::*;

verus! {

/// The single protocol version this codec accepts.
pub const PROTOCOL_VERSION: u8 = 1;

/// Bytes of the fixed header that precedes the payload.
pub const HEADER_LENGTH: u8 = 7;

/// One wire message, as carried between codec, dispatcher and hub.
#[derive(Debug)]
pub struct WsMessage {
    pub version: u8,
    pub msg_type: u8,
    pub flags: u8,
    pub payload: Vec<u8>,
}

/// The mathematical value of a `WsMessage`.
#[verifier::ext_equal]
pub ghost struct WireModel {
    pub version: u8,
    pub msg_type: u8,
    pub flags: u8,
    pub payload: Seq<u8>,
}

impl View for WsMessage {
    type V = WireModel;

    open spec fn view(&self) -> WireModel {
        WireModel {
            version: self.version,
            msg_type: self.msg_type,
            flags: self.flags,
            payload: self.payload@,
        }
    }
}

/// Why a buffer failed to decode.
#[derive(Clone, Copy, Debug, PartialEq, Eq, Structural)]
pub enum DecodeError {
    /// Fewer than `HEADER_LENGTH` bytes.
    TooShort,
    /// The version byte (carried here) is not `PROTOCOL_VERSION`.
    UnsupportedVersion(u8),
    /// The declared payload length disagrees with the bytes that follow the header.
    LengthMismatch,
}

impl DecodeError {
    /// The human-readable text of this error.
    pub open spec fn spec_message(self) -> Seq<char> {
        match self {
            DecodeError::TooShort => "Message too short"@,
            DecodeError::UnsupportedVersion(v) =>
                "Unsupported protocol version: "@ + crate::text::dec_rep(v as int),
            DecodeError::LengthMismatch => "Message length mismatch"@,
        }
    }

    /// Renders the error as human-readable text.
    pub fn message(&self) -> (s: String)
        ensures
            s@ == self.spec_message(),
    {
        match self {
            DecodeError::TooShort => String::from_str("Message too short"),
            DecodeError::UnsupportedVersion(v) => {
                let mut s = String::from_str("Unsupported protocol version: ");
                crate::text::append_u8_decimal(&mut s, *v);
                s
            },
            DecodeError::LengthMismatch => String::from_str("Message length mismatch"),
        }
    }
}

/// The four big-endian bytes of a `u32`.
pub open spec fn be32_bytes(n: u32) -> Seq<u8> {
    seq![
        (n >> 24) as u8,
        ((n >> 16) & 0xff) as u8,
        ((n >> 8) & 0xff) as u8,
        (n & 0xff) as u8,
    ]
}

/// The `u32` read from four big-endian bytes.
pub open spec fn be32_val(b0: u8, b1: u8, b2: u8, b3: u8) -> u32 {
    ((b0 as u32) << 24) | ((b1 as u32) << 16) | ((b2 as u32) << 8) | (b3 as u32)
}

/// The exact bytes that encoding a message produces.
pub open spec fn spec_encode(m: WireModel) -> Seq<u8> {
    seq![m.version, m.msg_type, m.flags] + be32_bytes(m.payload.len() as u32) + m.payload
}

/// A message the codec can represent on the wire without truncating the
/// declared payload length.
pub open spec fn encodable(m: WireModel) -> bool {
    m.payload.len() <= u32::MAX
}

/// The exact outcome of decoding any byte sequence.
pub open spec fn spec_decode(data: Seq<u8>) -> Result<WireModel, DecodeError> {
    if data.len() < HEADER_LENGTH {
        Err(DecodeError::TooShort)
    } else if data[0] != PROTOCOL_VERSION {
        Err(DecodeError::UnsupportedVersion(data[0]))
    } else if HEADER_LENGTH + be32_val(data[3], data[4], data[5], data[6]) != data.len() {
        Err(DecodeError::LengthMismatch)
    } else {
        Ok(WireModel {
            version: data[0],
            msg_type: data[1],
            flags: data[2],
            payload: data.subrange(HEADER_LENGTH as int, data.len() as int),
        })
    }
}

proof fn lemma_be32_roundtrip(n: u32)
    by (bit_vector)
    ensures
        be32_val((n >> 24) as u8, ((n >> 16) & 0xff) as u8, ((n >> 8) & 0xff) as u8, (n & 0xff) as u8) == n,
{
}

/// Encodes a message: fixed header, then the payload.
pub fn encode_ws_message(msg: &WsMessage) -> (r: Vec<u8>)
    requires
        encodable(msg@),
        HEADER_LENGTH + msg@.payload.len() <= usize::MAX,
    ensures
        r@ == spec_encode(msg@),
        r@.len() == HEADER_LENGTH + msg@.payload.len(),
{
    let plen: u32 = msg.payload.len() as u32;
    proof {
        assert(plen >> 24 <= 0xff && (plen >> 16) & 0xff <= 0xff && (plen >> 8) & 0xff <= 0xff
            && plen & 0xff <= 0xff) by (bit_vector);
    }
    let mut buf: Vec<u8> = Vec::with_capacity(HEADER_LENGTH as usize + msg.payload.len());
    buf.push(msg.version);
    buf.push(msg.msg_type);
    buf.push(msg.flags);
    buf.push((plen >> 24) as u8);
    buf.push(((plen >> 16) & 0xff) as u8);
    buf.push(((plen >> 8) & 0xff) as u8);
    buf.push((plen & 0xff) as u8);
    let mut i: usize = 0;
    while i < msg.payload.len()
        invariant
            i <= msg.payload.len(),
            buf@ == seq![msg.version, msg.msg_type, msg.flags] + be32_bytes(plen)
                + msg.payload@.subrange(0, i as int),
        decreases msg.payload.len() - i,
    {
        buf.push(msg.payload[i]);
        proof {
            assert(msg.payload@.subrange(0, i + 1)
                =~= msg.payload@.subrange(0, i as int).push(msg.payload@[i as int]));
        }
        i = i + 1;
    }
    proof {
        assert(msg.payload@.subrange(0, msg.payload@.len() as int) =~= msg.payload@);
        assert(buf@ =~= spec_encode(msg@));
    }
    buf
}

/// Decodes a buffer; `spec_decode` states the result for every input, so
/// every `TooShort`, `UnsupportedVersion` and `LengthMismatch` case is pinned.
pub fn decode_ws_message(data: &Vec<u8>) -> (r: Result<WsMessage, DecodeError>)
    ensures
        match r {
            Ok(m) => spec_decode(data@) == Ok::<WireModel, DecodeError>(m@),
            Err(e) => spec_decode(data@) == Err::<WireModel, DecodeError>(e),
        },
{
    let data_len = data.len();
    if data_len < HEADER_LENGTH as usize {
        return Err(DecodeError::TooShort);
    }
    let version = data[0];
    if version != PROTOCOL_VERSION {
        return Err(DecodeError::UnsupportedVersion(version));
    }
    let msg_type = data[1];
    let flags = data[2];
    let declared: u32 = ((data[3] as u32) << 24) | ((data[4] as u32) << 16)
        | ((data[5] as u32) << 8) | (data[6] as u32);
    if data_len - (HEADER_LENGTH as usize) != declared as usize {
        return Err(DecodeError::LengthMismatch);
    }
    let mut payload: Vec<u8> = Vec::with_capacity(data_len - HEADER_LENGTH as usize);
    let mut i: usize = HEADER_LENGTH as usize;
    while i < data_len
        invariant
            HEADER_LENGTH <= i <= data_len,
            data_len == data@.len(),
            payload@ == data@.subrange(HEADER_LENGTH as int, i as int),
        decreases data_len - i,
    {
        payload.push(data[i]);
        proof {
            assert(data@.subrange(HEADER_LENGTH as int, i + 1)
                =~= data@.subrange(HEADER_LENGTH as int, i as int).push(data@[i as int]));
        }
        i = i + 1;
    }
    let msg = WsMessage { version, msg_type, flags, payload };
    proof {
        assert(spec_decode(data@) == Ok::<WireModel, DecodeError>(msg@));
    }
    Ok(msg)
}

/// Round trip: decoding an encoded message gives back exactly that message,
/// for every message with the supported version and an encodable payload.
pub proof fn lemma_encode_decode_roundtrip(m: WireModel)
    requires
        m.version == PROTOCOL_VERSION,
        encodable(m),
    ensures
        spec_decode(spec_encode(m)) == Ok::<WireModel, DecodeError>(m),
{
    let data = spec_encode(m);
    let n = m.payload.len() as u32;
    assert(data.len() == HEADER_LENGTH + m.payload.len());
    lemma_be32_roundtrip(n);
    assert(data[3] == (n >> 24) as u8);
    assert(data[4] == ((n >> 16) & 0xff) as u8);
    assert(data[5] == ((n >> 8) & 0xff) as u8);
    assert(data[6] == (n & 0xff) as u8);
    assert(be32_val(data[3], data[4], data[5], data[6]) == n);
    assert(data.subrange(HEADER_LENGTH as int, data.len() as int) =~= m.payload);
    assert(spec_decode(data)->Ok_0 =~= m);
}

/// Decoding fails with `TooShort` on every buffer shorter than the header.
pub proof fn lemma_decode_too_short(data: Seq<u8>)
    requires
        data.len() < HEADER_LENGTH,
    ensures
        spec_decode(data) == Err::<WireModel, DecodeError>(DecodeError::TooShort),
{
}

/// Decoding fails with `UnsupportedVersion` on every long-enough buffer whose
/// version byte is not the supported one, whatever the rest holds.
pub proof fn lemma_decode_unsupported_version(data: Seq<u8>)
    requires
        data.len() >= HEADER_LENGTH,
        data[0] != PROTOCOL_VERSION,
    ensures
        spec_decode(data) == Err::<WireModel, DecodeError>(DecodeError::UnsupportedVersion(data[0])),
{
}

/// Decoding fails with `LengthMismatch` whenever the declared length and the
/// actual remaining bytes disagree, in either direction.
pub proof fn lemma_decode_length_mismatch(data: Seq<u8>)
    requires
        data.len() >= HEADER_LENGTH,
        data[0] == PROTOCOL_VERSION,
        HEADER_LENGTH + be32_val(data[3], data[4], data[5], data[6]) != data.len(),
    ensures
        spec_decode(data) == Err::<WireModel, DecodeError>(DecodeError::LengthMismatch),
{
}

/// Byte-for-byte copy of a buffer.
pub fn clone_bytes(v: &Vec<u8>) -> (r: Vec<u8>)
    ensures
        r@ == v@,
{
    let mut r: Vec<u8> = Vec::with_capacity(v.len());
    let mut i: usize = 0;
    while i < v.len()
        invariant
            i <= v@.len(),
            r@ == v@.subrange(0, i as int),
        decreases v@.len() - i,
    {
        r.push(v[i]);
        proof {
            assert(v@.subrange(0, i + 1) =~= v@.subrange(0, i as int).push(v@[i as int]));
        }
        i = i + 1;
    }
    proof {
        assert(v@.subrange(0, v@.len() as int) =~= v@);
    }
    r
}

} // verus!
