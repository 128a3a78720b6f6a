//! WebSocket frame codec: pure encoding and decoding of frames to and from
//! byte sequences, with masking and the three length forms of the wire format.
use vstd::prelude::*;

verus! {

/// Length code announcing a 16-bit extended payload length.
pub const PAYLOAD_LEN_U16: u8 = 126;

/// Length code announcing a 64-bit extended payload length.
pub const PAYLOAD_LEN_U64: u8 = 127;

/// Frame type tag carried in the low nibble of the first header byte.
#[derive(Debug, Clone, Copy, PartialEq, Eq, Structural)]
pub enum OpCode {
    TextFrame,
    BinaryFrame,
    ConnectionClose,
    Ping,
    Pong,
}

/// A frame was rejected while decoding, or a handshake request was unusable.
/// Always connection-local: the offending connection is closed, nothing else.
#[derive(Debug, Clone, Copy, PartialEq, Eq, Structural)]
pub enum ProtocolError {
    /// The opcode nibble holds a value outside the supported set.
    InvalidOpcode,
    /// One of the reserved header bits is set.
    ReservedBitsSet,
    /// The announced payload length does not fit in this machine's `usize`.
    FrameTooLarge,
    /// The upgrade request lacks a usable `Sec-WebSocket-Key` header.
    MissingKey,
}

impl OpCode {
    /// The wire value of this opcode.
    pub open spec fn spec_num(self) -> u8 {
        match self {
            OpCode::TextFrame => 1,
            OpCode::BinaryFrame => 2,
            OpCode::ConnectionClose => 8,
            OpCode::Ping => 9,
            OpCode::Pong => 0xA,
        }
    }

    /// The opcode denoted by a wire value, if any.
    pub open spec fn spec_from(op: u8) -> Option<OpCode> {
        match op {
            1u8 => Some(OpCode::TextFrame),
            2u8 => Some(OpCode::BinaryFrame),
            8u8 => Some(OpCode::ConnectionClose),
            9u8 => Some(OpCode::Ping),
            10u8 => Some(OpCode::Pong),
            _ => None,
        }
    }

    /// Executable form of [`OpCode::spec_num`].
    pub fn num(self) -> (r: u8)
        ensures
            r == self.spec_num(),
    {
        match self {
            OpCode::TextFrame => 1,
            OpCode::BinaryFrame => 2,
            OpCode::ConnectionClose => 8,
            OpCode::Ping => 9,
            OpCode::Pong => 0xA,
        }
    }

    /// Executable form of [`OpCode::spec_from`].
    pub fn from(op: u8) -> (r: Option<OpCode>)
        ensures
            r == Self::spec_from(op),
    {
        match op {
            1 => Some(OpCode::TextFrame),
            2 => Some(OpCode::BinaryFrame),
            8 => Some(OpCode::ConnectionClose),
            9 => Some(OpCode::Ping),
            10 => Some(OpCode::Pong),
            _ => None,
        }
    }

    proof fn lemma_from_num(self)
        ensures
            Self::spec_from(self.spec_num()) == Some(self),
    {
        match self {
            OpCode::TextFrame => {},
            OpCode::BinaryFrame => {},
            OpCode::ConnectionClose => {},
            OpCode::Ping => {},
            OpCode::Pong => {},
        }
    }
}

/// The fixed two-byte header of a frame. `payload_length` holds the length
/// code (an inline length, or one of the two extended-length markers).
#[derive(Debug, Clone, Copy, PartialEq, Eq, Structural)]
pub struct WebSocketFrameHeader {
    pub fin: bool,
    pub rsv1: bool,
    pub rsv2: bool,
    pub rsv3: bool,
    pub masked: bool,
    pub opcode: OpCode,
    pub payload_length: u8,
}

impl WebSocketFrameHeader {
    /// The minimal-width length code for a payload of `len` bytes.
    pub open spec fn spec_determine_len(len: nat) -> u8 {
        if len < PAYLOAD_LEN_U16 {
            len as u8
        } else if len < 65536 {
            PAYLOAD_LEN_U16
        } else {
            PAYLOAD_LEN_U64
        }
    }

    /// Executable form of [`WebSocketFrameHeader::spec_determine_len`].
    pub fn determine_len(len: usize) -> (r: u8)
        ensures
            r == Self::spec_determine_len(len as nat),
    {
        if len < PAYLOAD_LEN_U16 as usize {
            len as u8
        } else if len < 65536 {
            PAYLOAD_LEN_U16
        } else {
            PAYLOAD_LEN_U64
        }
    }

    /// A header for an outgoing server frame: final fragment, reserved bits
    /// clear, never masked, minimal-width length code.
    pub fn new_header(len: usize, opcode: OpCode) -> (r: WebSocketFrameHeader)
        ensures
            r == (WebSocketFrameHeader {
                fin: true,
                rsv1: false,
                rsv2: false,
                rsv3: false,
                masked: false,
                opcode: opcode,
                payload_length: Self::spec_determine_len(len as nat),
            }),
    {
        WebSocketFrameHeader {
            fin: true,
            rsv1: false,
            rsv2: false,
            rsv3: false,
            masked: false,
            payload_length: Self::determine_len(len),
            opcode: opcode,
        }
    }
}

/// The big-endian byte pair of a 16-bit value.
pub open spec fn spec_u16_be(x: u16) -> Seq<u8> {
    seq![((x >> 8) & 0xFF) as u8, (x & 0xFF) as u8]
}

/// The 16-bit value read big-endian from two bytes.
pub open spec fn spec_u16_from_be(b0: u8, b1: u8) -> u16 {
    ((b0 as u16) << 8) | (b1 as u16)
}

/// The big-endian byte sequence of a 64-bit value.
pub open spec fn spec_u64_be(x: u64) -> Seq<u8> {
    seq![
        ((x >> 56) & 0xFF) as u8,
        ((x >> 48) & 0xFF) as u8,
        ((x >> 40) & 0xFF) as u8,
        ((x >> 32) & 0xFF) as u8,
        ((x >> 24) & 0xFF) as u8,
        ((x >> 16) & 0xFF) as u8,
        ((x >> 8) & 0xFF) as u8,
        (x & 0xFF) as u8,
    ]
}

/// The 64-bit value read big-endian from the first eight bytes of `s`.
pub open spec fn spec_u64_from_be(s: Seq<u8>) -> u64 {
    ((s[0] as u64) << 56) | ((s[1] as u64) << 48) | ((s[2] as u64) << 40) | ((s[3] as u64) << 32)
        | ((s[4] as u64) << 24) | ((s[5] as u64) << 16) | ((s[6] as u64) << 8) | (s[7] as u64)
}

/// Reading back the big-endian pair of a 16-bit value gives the value.
pub proof fn lemma_u16_be_roundtrip(x: u16)
    ensures
        spec_u16_from_be(spec_u16_be(x)[0], spec_u16_be(x)[1]) == x,
{
    let b0 = ((x >> 8) & 0xFF) as u8;
    let b1 = (x & 0xFF) as u8;
    assert(((b0 as u16) << 8) | (b1 as u16) == x) by (bit_vector)
        requires
            b0 == ((x >> 8) & 0xFF) as u8,
            b1 == (x & 0xFF) as u8,
    ;
}

/// Reading back the big-endian bytes of a 64-bit value gives the value.
pub proof fn lemma_u64_be_roundtrip(x: u64)
    ensures
        spec_u64_from_be(spec_u64_be(x)) == x,
{
    let s = spec_u64_be(x);
    let b0 = ((x >> 56) & 0xFF) as u8;
    let b1 = ((x >> 48) & 0xFF) as u8;
    let b2 = ((x >> 40) & 0xFF) as u8;
    let b3 = ((x >> 32) & 0xFF) as u8;
    let b4 = ((x >> 24) & 0xFF) as u8;
    let b5 = ((x >> 16) & 0xFF) as u8;
    let b6 = ((x >> 8) & 0xFF) as u8;
    let b7 = (x & 0xFF) as u8;
    assert(((b0 as u64) << 56) | ((b1 as u64) << 48) | ((b2 as u64) << 40) | ((b3 as u64) << 32)
        | ((b4 as u64) << 24) | ((b5 as u64) << 16) | ((b6 as u64) << 8) | (b7 as u64) == x)
        by (bit_vector)
        requires
            b0 == ((x >> 56) & 0xFF) as u8,
            b1 == ((x >> 48) & 0xFF) as u8,
            b2 == ((x >> 40) & 0xFF) as u8,
            b3 == ((x >> 32) & 0xFF) as u8,
            b4 == ((x >> 24) & 0xFF) as u8,
            b5 == ((x >> 16) & 0xFF) as u8,
            b6 == ((x >> 8) & 0xFF) as u8,
            b7 == (x & 0xFF) as u8,
    ;
}

/// Executable form of [`spec_u16_from_be`].
pub fn u16_from_be(b0: u8, b1: u8) -> (r: u16)
    ensures
        r == spec_u16_from_be(b0, b1),
{
    ((b0 as u16) << 8) | (b1 as u16)
}

/// Executable form of [`spec_u16_be`]: pushes the two bytes onto `out`.
pub fn push_u16_be(out: &mut Vec<u8>, x: u16)
    ensures
        final(out)@ == old(out)@ + spec_u16_be(x),
{
    proof {
        assert((x >> 8) & 0xFF < 256 && x & 0xFF < 256) by (bit_vector);
    }
    out.push(((x >> 8) & 0xFF) as u8);
    out.push((x & 0xFF) as u8);
    assert(out@ =~= old(out)@ + spec_u16_be(x));
}

/// Executable form of [`spec_u64_from_be`], reading at `off` in `buf`.
pub fn u64_from_be(buf: &[u8], off: usize) -> (r: u64)
    requires
        off + 8 <= buf@.len(),
    ensures
        r == spec_u64_from_be(buf@.subrange(off as int, off as int + 8)),
{
    let r = ((buf[off] as u64) << 56) | ((buf[off + 1] as u64) << 48) | ((buf[off + 2] as u64)
        << 40) | ((buf[off + 3] as u64) << 32) | ((buf[off + 4] as u64) << 24) | ((buf[off + 5]
        as u64) << 16) | ((buf[off + 6] as u64) << 8) | (buf[off + 7] as u64);
    proof {
        let s = buf@.subrange(off as int, off as int + 8);
        assert(s[0] == buf@[off as int]);
        assert(s[1] == buf@[off as int + 1]);
        assert(s[2] == buf@[off as int + 2]);
        assert(s[3] == buf@[off as int + 3]);
        assert(s[4] == buf@[off as int + 4]);
        assert(s[5] == buf@[off as int + 5]);
        assert(s[6] == buf@[off as int + 6]);
        assert(s[7] == buf@[off as int + 7]);
    }
    r
}

/// Executable form of [`spec_u64_be`]: pushes the eight bytes onto `out`.
pub fn push_u64_be(out: &mut Vec<u8>, x: u64)
    ensures
        final(out)@ == old(out)@ + spec_u64_be(x),
{
    proof {
        assert((x >> 56) & 0xFF < 256 && (x >> 48) & 0xFF < 256 && (x >> 40) & 0xFF < 256 && (x
            >> 32) & 0xFF < 256 && (x >> 24) & 0xFF < 256 && (x >> 16) & 0xFF < 256 && (x >> 8)
            & 0xFF < 256 && x & 0xFF < 256) by (bit_vector);
    }
    out.push(((x >> 56) & 0xFF) as u8);
    out.push(((x >> 48) & 0xFF) as u8);
    out.push(((x >> 40) & 0xFF) as u8);
    out.push(((x >> 32) & 0xFF) as u8);
    out.push(((x >> 24) & 0xFF) as u8);
    out.push(((x >> 16) & 0xFF) as u8);
    out.push(((x >> 8) & 0xFF) as u8);
    out.push((x & 0xFF) as u8);
    assert(out@ =~= old(out)@ + spec_u64_be(x));
}

/// The 16-bit header word of a header: flags and opcode in the high byte,
/// mask bit and length code in the low byte.
pub open spec fn spec_serialize_header(h: WebSocketFrameHeader) -> u16 {
    let b1: u8 = (if h.fin {
        0x80u8
    } else {
        0u8
    }) | (if h.rsv1 {
        0x40u8
    } else {
        0u8
    }) | (if h.rsv2 {
        0x20u8
    } else {
        0u8
    }) | (if h.rsv3 {
        0x10u8
    } else {
        0u8
    }) | (h.opcode.spec_num() & 0x0F);
    let b2: u8 = (if h.masked {
        0x80u8
    } else {
        0u8
    }) | (h.payload_length & 0x7F);
    ((b1 as u16) << 8) | (b2 as u16)
}

/// The header denoted by a 16-bit header word. Rejects unknown opcodes and,
/// as the protocol demands, any set reserved bit.
pub open spec fn spec_parse_header(word: u16) -> Result<WebSocketFrameHeader, ProtocolError> {
    let opcode_num = ((word >> 8) & 0x0F) as u8;
    match OpCode::spec_from(opcode_num) {
        None => Err(ProtocolError::InvalidOpcode),
        Some(op) => {
            let h = WebSocketFrameHeader {
                fin: (word >> 8) & 0x80 == 0x80,
                rsv1: (word >> 8) & 0x40 == 0x40,
                rsv2: (word >> 8) & 0x20 == 0x20,
                rsv3: (word >> 8) & 0x10 == 0x10,
                opcode: op,
                masked: word & 0x80 == 0x80,
                payload_length: (word & 0x7F) as u8,
            };
            if h.rsv1 || h.rsv2 || h.rsv3 {
                Err(ProtocolError::ReservedBitsSet)
            } else {
                Ok(h)
            }
        },
    }
}

/// Parsing the serialized word of a well-formed header gives the header back.
pub proof fn lemma_header_roundtrip(h: WebSocketFrameHeader)
    requires
        !h.rsv1,
        !h.rsv2,
        !h.rsv3,
        h.payload_length <= 0x7F,
    ensures
        spec_parse_header(spec_serialize_header(h)) == Ok::<_, ProtocolError>(h),
{
    let o = h.opcode.spec_num();
    let l = h.payload_length;
    let fb: u8 = if h.fin {
        0x80
    } else {
        0
    };
    let mb: u8 = if h.masked {
        0x80
    } else {
        0
    };
    let b1: u8 = fb | 0u8 | 0u8 | 0u8 | (o & 0x0F);
    let b2: u8 = mb | (l & 0x7F);
    let w = spec_serialize_header(h);
    assert(w == ((b1 as u16) << 8) | (b2 as u16));
    assert((((w >> 8) & 0x0F) as u8) == o && (((w >> 8) & 0x80 == 0x80) == (fb == 0x80)) && ((w
        >> 8) & 0x40 == 0) && ((w >> 8) & 0x20 == 0) && ((w >> 8) & 0x10 == 0) && ((w & 0x80
        == 0x80) == (mb == 0x80)) && ((w & 0x7F) as u8 == l)) by (bit_vector)
        requires
            b1 == fb | 0u8 | 0u8 | 0u8 | (o & 0x0F),
            b2 == mb | (l & 0x7F),
            w == ((b1 as u16) << 8) | (b2 as u16),
            fb == 0 || fb == 0x80,
            mb == 0 || mb == 0x80,
            o <= 15,
            l <= 0x7F,
    ;
    h.opcode.lemma_from_num();
}

impl WebSocketFrameHeader {
    /// Executable form of [`spec_serialize_header`].
    pub fn serialize_header(hdr: &WebSocketFrameHeader) -> (r: u16)
        ensures
            r == spec_serialize_header(*hdr),
    {
        let b1: u8 = (if hdr.fin {
            0x80u8
        } else {
            0u8
        }) | (if hdr.rsv1 {
            0x40u8
        } else {
            0u8
        }) | (if hdr.rsv2 {
            0x20u8
        } else {
            0u8
        }) | (if hdr.rsv3 {
            0x10u8
        } else {
            0u8
        }) | (hdr.opcode.num() & 0x0F);
        let b2: u8 = (if hdr.masked {
            0x80u8
        } else {
            0u8
        }) | (hdr.payload_length & 0x7F);
        ((b1 as u16) << 8) | (b2 as u16)
    }

    /// Executable form of [`spec_parse_header`].
    pub fn parse_header(word: u16) -> (r: Result<WebSocketFrameHeader, ProtocolError>)
        ensures
            r == spec_parse_header(word),
    {
        proof {
            assert((word >> 8) & 0x0F < 256 && word & 0x7F < 256) by (bit_vector);
        }
        let opcode_num = ((word >> 8) & 0x0F) as u8;
        match OpCode::from(opcode_num) {
            None => Err(ProtocolError::InvalidOpcode),
            Some(op) => {
                let h = WebSocketFrameHeader {
                    fin: (word >> 8) & 0x80 == 0x80,
                    rsv1: (word >> 8) & 0x40 == 0x40,
                    rsv2: (word >> 8) & 0x20 == 0x20,
                    rsv3: (word >> 8) & 0x10 == 0x10,
                    opcode: op,
                    masked: word & 0x80 == 0x80,
                    payload_length: (word & 0x7F) as u8,
                };
                if h.rsv1 || h.rsv2 || h.rsv3 {
                    Err(ProtocolError::ReservedBitsSet)
                } else {
                    Ok(h)
                }
            },
        }
    }
}

/// One protocol unit: header, optional mask key, payload bytes.
#[derive(Debug)]
pub struct WebSocketFrame {
    pub header: WebSocketFrameHeader,
    pub mask: Option<[u8; 4]>,
    pub payload: Vec<u8>,
}

/// The mathematical model of a frame.
pub struct FrameModel {
    pub header: WebSocketFrameHeader,
    pub mask: Option<Seq<u8>>,
    pub payload: Seq<u8>,
}

impl View for WebSocketFrame {
    type V = FrameModel;

    open spec fn view(&self) -> FrameModel {
        FrameModel {
            header: self.header,
            mask: match self.mask {
                Some(m) => Some(m@),
                None => None,
            },
            payload: self.payload@,
        }
    }
}

/// `s` masked with the four-byte key `mask`: byte `i` is XOR-ed with
/// `mask[i % 4]`.
pub open spec fn spec_apply_mask(mask: Seq<u8>, s: Seq<u8>) -> Seq<u8> {
    s.map(|i: int, b: u8| b ^ mask[i % 4])
}

/// Masking twice with the same key gives the bytes back.
pub proof fn lemma_mask_involution(mask: Seq<u8>, s: Seq<u8>)
    requires
        mask.len() == 4,
    ensures
        spec_apply_mask(mask, spec_apply_mask(mask, s)) == s,
{
    let once = spec_apply_mask(mask, s);
    let twice = spec_apply_mask(mask, once);
    assert forall|i: int| 0 <= i < s.len() implies twice[i] == s[i] by {
        let b = s[i];
        let m = mask[i % 4];
        assert((b ^ m) ^ m == b) by (bit_vector);
    }
    assert(twice =~= s);
}

impl WebSocketFrame {
    /// A frame the codec encodes: minimal-width length code, reserved bits
    /// clear, and — as for every server-to-client frame — no mask.
    pub open spec fn wf(self) -> bool {
        &&& self.header.payload_length == WebSocketFrameHeader::spec_determine_len(
            self.payload@.len(),
        )
        &&& !self.header.rsv1
        &&& !self.header.rsv2
        &&& !self.header.rsv3
        &&& !self.header.masked
        &&& self.mask is None
    }

    /// Executable form of [`spec_apply_mask`], in place.
    pub fn apply_mask(mask: [u8; 4], bytes: &mut Vec<u8>)
        ensures
            final(bytes)@ == spec_apply_mask(mask@, old(bytes)@),
    {
        let n = bytes.len();
        let mut idx: usize = 0;
        while idx < n
            invariant
                n == bytes@.len(),
                idx <= n,
                bytes@.len() == old(bytes)@.len(),
                forall|j: int| idx <= j < n ==> bytes@[j] == old(bytes)@[j],
                forall|j: int| 0 <= j < idx ==> bytes@[j] == old(bytes)@[j] ^ mask@[j % 4],
            decreases n - idx,
        {
            let c = bytes[idx] ^ mask[idx % 4];
            bytes.set(idx, c);
            idx += 1;
        }
        assert(bytes@ =~= spec_apply_mask(mask@, old(bytes)@));
    }

    /// The bytes of a well-formed frame on the wire: two header bytes, the
    /// extended length in the form the length code announces, the payload.
    pub open spec fn spec_encode(f: WebSocketFrame) -> Seq<u8> {
        spec_u16_be(spec_serialize_header(f.header)) + (if f.header.payload_length
            == PAYLOAD_LEN_U16 {
            spec_u16_be(f.payload@.len() as u16)
        } else if f.header.payload_length == PAYLOAD_LEN_U64 {
            spec_u64_be(f.payload@.len() as u64)
        } else {
            Seq::<u8>::empty()
        }) + f.payload@
    }

    /// Encode this frame for the wire.
    pub fn encode(&self) -> (r: Vec<u8>)
        requires
            self.wf(),
        ensures
            r@ == Self::spec_encode(*self),
    {
        let mut out: Vec<u8> = Vec::new();
        let word = WebSocketFrameHeader::serialize_header(&self.header);
        push_u16_be(&mut out, word);
        if self.header.payload_length == PAYLOAD_LEN_U16 {
            push_u16_be(&mut out, self.payload.len() as u16);
        } else if self.header.payload_length == PAYLOAD_LEN_U64 {
            push_u64_be(&mut out, self.payload.len() as u64);
        }
        let mut i: usize = 0;
        let n = self.payload.len();
        let ghost prefix = out@;
        while i < n
            invariant
                n == self.payload@.len(),
                i <= n,
                out@ == prefix + self.payload@.take(i as int),
            decreases n - i,
        {
            out.push(self.payload[i]);
            proof {
                assert(self.payload@.take(i + 1) =~= self.payload@.take(i as int).push(
                    self.payload@[i as int],
                ));
            }
            i += 1;
        }
        proof {
            assert(self.payload@.take(n as int) =~= self.payload@);
            assert(out@ =~= Self::spec_encode(*self));
        }
        out
    }
}

/// What decoding a byte sequence yields: a complete frame and the number of
/// bytes it occupied, a request for more bytes, or a protocol error.
pub enum DecodeResult {
    Frame(WebSocketFrame, usize),
    Incomplete,
    Error(ProtocolError),
}

/// The model of a [`DecodeResult`].
pub enum Decoded {
    Frame(FrameModel, int),
    Incomplete,
    Error(ProtocolError),
}

/// The model denoted by an executable decode result.
pub open spec fn decoded_view(r: DecodeResult) -> Decoded {
    match r {
        DecodeResult::Frame(f, n) => Decoded::Frame(f@, n as int),
        DecodeResult::Incomplete => Decoded::Incomplete,
        DecodeResult::Error(e) => Decoded::Error(e),
    }
}

/// Decoding of `s` once the header and the actual payload length `len` are
/// known; `off` is the offset just past the length field.
pub open spec fn spec_decode_with_len(
    s: Seq<u8>,
    h: WebSocketFrameHeader,
    len: int,
    off: int,
) -> Decoded {
    if len > usize::MAX {
        Decoded::Error(ProtocolError::FrameTooLarge)
    } else if h.masked {
        if s.len() < off + 4 + len {
            Decoded::Incomplete
        } else {
            let mask = s.subrange(off, off + 4);
            let raw = s.subrange(off + 4, off + 4 + len);
            Decoded::Frame(
                FrameModel { header: h, mask: Some(mask), payload: spec_apply_mask(mask, raw) },
                off + 4 + len,
            )
        }
    } else {
        if s.len() < off + len {
            Decoded::Incomplete
        } else {
            Decoded::Frame(
                FrameModel { header: h, mask: None, payload: s.subrange(off, off + len) },
                off + len,
            )
        }
    }
}

/// Decoding of `s` once its header is known: reads the length field in the
/// form the header's length code announces.
pub open spec fn spec_decode_after_header(s: Seq<u8>, h: WebSocketFrameHeader) -> Decoded {
    if h.payload_length == PAYLOAD_LEN_U64 {
        if s.len() < 10 {
            Decoded::Incomplete
        } else {
            spec_decode_with_len(s, h, spec_u64_from_be(s.subrange(2, 10)) as int, 10)
        }
    } else if h.payload_length == PAYLOAD_LEN_U16 {
        if s.len() < 4 {
            Decoded::Incomplete
        } else {
            spec_decode_with_len(s, h, spec_u16_from_be(s[2], s[3]) as int, 4)
        }
    } else {
        spec_decode_with_len(s, h, h.payload_length as int, 2)
    }
}

/// What decoding the byte sequence `s` yields. A short sequence asks for
/// more bytes; a malformed header is an error; a complete frame comes back
/// with its payload unmasked and with the count of bytes consumed.
pub open spec fn spec_decode(s: Seq<u8>) -> Decoded {
    if s.len() < 2 {
        Decoded::Incomplete
    } else {
        match spec_parse_header(spec_u16_from_be(s[0], s[1])) {
            Err(e) => Decoded::Error(e),
            Ok(h) => spec_decode_after_header(s, h),
        }
    }
}

impl WebSocketFrame {
    /// The four-byte mask key at `off` in `buf`.
    pub fn read_mask(buf: &[u8], off: usize) -> (r: [u8; 4])
        requires
            off + 4 <= buf@.len(),
        ensures
            r@ == buf@.subrange(off as int, off as int + 4),
    {
        let r = [buf[off], buf[off + 1], buf[off + 2], buf[off + 3]];
        proof {
            assert(r@ =~= buf@.subrange(off as int, off as int + 4));
        }
        r
    }

    /// The `len` payload bytes at `off` in `buf`, copied out.
    pub fn read_payload(buf: &[u8], off: usize, len: usize) -> (r: Vec<u8>)
        requires
            off + len <= buf@.len(),
        ensures
            r@ == buf@.subrange(off as int, off as int + len),
    {
        let total = buf.len();
        let mut r: Vec<u8> = Vec::new();
        let mut i: usize = 0;
        while i < len
            invariant
                i <= len,
                total == buf@.len(),
                off + len <= total,
                r@ == buf@.subrange(off as int, off as int + i),
            decreases len - i,
        {
            r.push(buf[off + i]);
            proof {
                assert(buf@.subrange(off as int, off as int + i + 1) =~= buf@.subrange(
                    off as int,
                    off as int + i,
                ).push(buf@[off + i]));
            }
            i += 1;
        }
        r
    }

    /// Decode one frame from the front of `buf`.
    pub fn decode(buf: &[u8]) -> (r: DecodeResult)
        ensures
            decoded_view(r) == spec_decode(buf@),
            r matches DecodeResult::Frame(f, n) ==> 2 <= n <= buf@.len(),
    {
        if buf.len() < 2 {
            return DecodeResult::Incomplete;
        }
        let word = u16_from_be(buf[0], buf[1]);
        let h = match WebSocketFrameHeader::parse_header(word) {
            Ok(h) => h,
            Err(e) => {
                return DecodeResult::Error(e);
            },
        };
        let (len64, off): (u64, usize) = if h.payload_length == PAYLOAD_LEN_U64 {
            if buf.len() < 10 {
                return DecodeResult::Incomplete;
            }
            (u64_from_be(buf, 2), 10)
        } else if h.payload_length == PAYLOAD_LEN_U16 {
            if buf.len() < 4 {
                return DecodeResult::Incomplete;
            }
            (u16_from_be(buf[2], buf[3]) as u64, 4)
        } else {
            (h.payload_length as u64, 2)
        };
        if len64 > usize::MAX as u64 {
            return DecodeResult::Error(ProtocolError::FrameTooLarge);
        }
        let len = len64 as usize;
        if h.masked {
            if buf.len() < off + 4 || buf.len() - (off + 4) < len {
                return DecodeResult::Incomplete;
            }
            let mask = Self::read_mask(buf, off);
            let mut payload = Self::read_payload(buf, off + 4, len);
            Self::apply_mask(mask, &mut payload);
            DecodeResult::Frame(
                WebSocketFrame { header: h, mask: Some(mask), payload },
                off + 4 + len,
            )
        } else {
            if buf.len() - off < len {
                return DecodeResult::Incomplete;
            }
            let payload = Self::read_payload(buf, off, len);
            DecodeResult::Frame(WebSocketFrame { header: h, mask: None, payload }, off + len)
        }
    }
}

impl WebSocketFrame {
    /// The reply a Ping frame demands: a Pong carrying the very same payload.
    pub fn pong(ping_frame: &WebSocketFrame) -> (r: WebSocketFrame)
        ensures
            r.wf(),
            r.header.opcode == OpCode::Pong,
            r.header.fin,
            r.payload@ == ping_frame.payload@,
    {
        let payload = vstd::slice::slice_to_vec(ping_frame.payload.as_slice());
        WebSocketFrame {
            header: WebSocketFrameHeader::new_header(payload.len(), OpCode::Pong),
            payload,
            mask: None,
        }
    }

    /// A Close frame answering `recv_frame`: it keeps at most the first two
    /// payload bytes (the status code) and drops any remainder.
    pub fn close_from(recv_frame: &WebSocketFrame) -> (r: WebSocketFrame)
        ensures
            r.wf(),
            r.header.opcode == OpCode::ConnectionClose,
            r.header.fin,
            r.payload@ == recv_frame.payload@.take(
                if recv_frame.payload@.len() < 2 {
                    recv_frame.payload@.len() as int
                } else {
                    2
                },
            ),
    {
        let keep = if recv_frame.payload.len() < 2 {
            recv_frame.payload.len()
        } else {
            2
        };
        let body = Self::read_payload(recv_frame.payload.as_slice(), 0, keep);
        proof {
            assert(recv_frame.payload@.subrange(0, keep as int) =~= recv_frame.payload@.take(
                keep as int,
            ));
        }
        WebSocketFrame {
            header: WebSocketFrameHeader::new_header(body.len(), OpCode::ConnectionClose),
            payload: body,
            mask: None,
        }
    }

    /// A Text frame wrapping `payload`, as the hub's outbound signals are
    /// written to a connection.
    pub fn text_frame(payload: Vec<u8>) -> (r: WebSocketFrame)
        ensures
            r.wf(),
            r.header.opcode == OpCode::TextFrame,
            r.header.fin,
            r.payload@ == payload@,
    {
        WebSocketFrame {
            header: WebSocketFrameHeader::new_header(payload.len(), OpCode::TextFrame),
            payload,
            mask: None,
        }
    }

    /// Whether this frame closes the connection.
    pub fn is_close(&self) -> (r: bool)
        ensures
            r == (self.header.opcode == OpCode::ConnectionClose),
    {
        self.header.opcode == OpCode::ConnectionClose
    }

    /// This frame's opcode.
    pub fn get_opcode(&self) -> (r: OpCode)
        ensures
            r == self.header.opcode,
    {
        self.header.opcode
    }
}

/// A complete frame occupies at least its two header bytes and never more
/// than the sequence it was decoded from.
pub proof fn lemma_decode_consumed(s: Seq<u8>)
    ensures
        spec_decode(s) matches Decoded::Frame(m, n) ==> 2 <= n <= s.len(),
{
}

/// Round trip: decoding the encoding of any well-formed frame yields a
/// complete frame with the same header (opcode and fin flag included), the
/// same payload bytes and no mask, and consumes the whole encoding.
pub proof fn lemma_decode_encode(f: WebSocketFrame)
    requires
        f.wf(),
    ensures
        spec_decode(WebSocketFrame::spec_encode(f)) == Decoded::Frame(
            f@,
            WebSocketFrame::spec_encode(f).len() as int,
        ),
{
    vstd::std_specs::vec::axiom_spec_len(&f.payload);
    let h = f.header;
    let p = f.payload@;
    let n = p.len() as int;
    let hw = spec_serialize_header(h);
    let hb = spec_u16_be(hw);
    let ext: Seq<u8> = if h.payload_length == PAYLOAD_LEN_U16 {
        spec_u16_be(p.len() as u16)
    } else if h.payload_length == PAYLOAD_LEN_U64 {
        spec_u64_be(p.len() as u64)
    } else {
        Seq::<u8>::empty()
    };
    let s = WebSocketFrame::spec_encode(f);
    assert(s == hb + ext + p);
    let k = ext.len() as int;
    assert(s.len() == 2 + k + n);
    assert(s[0] == hb[0] && s[1] == hb[1]);
    lemma_u16_be_roundtrip(hw);
    assert(spec_u16_from_be(s[0], s[1]) == hw);
    lemma_header_roundtrip(h);
    assert(spec_parse_header(hw) == Ok::<_, ProtocolError>(h));
    let off = 2 + k;
    assert forall|i: int| 0 <= i < n implies s[off + i] == p[i] by {
        assert(s[off + i] == (hb + ext + p)[off + i]);
    }
    assert(s.subrange(off, off + n) =~= p);
    if h.payload_length == PAYLOAD_LEN_U64 {
        assert(n >= 65536);
        assert(s.subrange(2, 10) =~= ext);
        lemma_u64_be_roundtrip(p.len() as u64);
        assert(spec_u64_from_be(s.subrange(2, 10)) == p.len() as u64);
        assert(spec_u64_from_be(s.subrange(2, 10)) as int == n);
        assert(spec_decode(s) == spec_decode_with_len(s, h, n, 10));
    } else if h.payload_length == PAYLOAD_LEN_U16 {
        assert(126 <= n < 65536);
        assert(s[2] == ext[0] && s[3] == ext[1]);
        lemma_u16_be_roundtrip(p.len() as u16);
        assert(spec_u16_from_be(s[2], s[3]) == p.len() as u16);
        assert(spec_u16_from_be(s[2], s[3]) as int == n);
        assert(spec_decode(s) == spec_decode_with_len(s, h, n, 4));
    } else {
        assert(h.payload_length == n as u8 && n < 126);
        assert(h.payload_length as int == n);
        assert(spec_decode(s) == spec_decode_with_len(s, h, n, 2));
    }
    assert(spec_decode_with_len(s, h, n, off) == Decoded::Frame(
        FrameModel { header: h, mask: None, payload: s.subrange(off, off + n) },
        off + n,
    ));
    assert(f@ == FrameModel { header: h, mask: None, payload: p });
}

} // verus!
