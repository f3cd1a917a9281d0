//! Frame layout: headers, messages, the message catalog, and the
//! mathematical description of encoding and decoding.
use vstd::prelude::*;
use crate::crc::{crc_fold, crc_step, CRC_INIT};

verus! {

/// Start-of-frame marker of protocol version 1.
pub const MARKER_V1: u8 = 0xFE;
/// Start-of-frame marker of protocol version 2.
pub const MARKER_V2: u8 = 0xFD;
/// Header bytes of a version 1 frame, marker included.
pub const HEADER_LEN_V1: usize = 6;
/// Header bytes of a version 2 frame, marker included.
pub const HEADER_LEN_V2: usize = 10;
/// Length of the signature block of a signed version 2 frame.
pub const SIGNATURE_LEN: usize = 13;
/// Largest payload a frame can carry.
pub const MAX_PAYLOAD_LEN: usize = 255;
/// Bound (exclusive) of a version 2 message identifier (24 bits).
pub const MAX_MSG_ID_V2: u32 = 0x100_0000;

/// Sender identity and ordering slot of a frame.
#[derive(Clone, Copy, Debug, PartialEq, Eq, Structural)]
pub struct MavHeader {
    pub sequence: u8,
    pub system_id: u8,
    pub component_id: u8,
}

impl MavHeader {
    /// The header used by convenience sends.
    pub fn get_default_header() -> (r: MavHeader)
        ensures
            r == default_header(),
    {
        MavHeader { sequence: 0, system_id: 255, component_id: 0 }
    }
}

pub open spec fn default_header() -> MavHeader {
    MavHeader { sequence: 0, system_id: 255, component_id: 0 }
}

/// Wire format version.
#[derive(Clone, Copy, Debug, PartialEq, Eq, Structural)]
pub enum MavlinkVersion {
    V1,
    V2,
}

/// A message: its identifier and its encoded payload.
#[derive(Clone, Debug, PartialEq, Eq)]
pub struct MavMessage {
    pub id: u32,
    pub payload: Vec<u8>,
}

/// What a catalog knows of one message kind.
#[derive(Clone, Copy, Debug, PartialEq, Eq, Structural)]
pub struct MessageInfo {
    pub id: u32,
    pub crc_extra: u8,
}

/// The known message kinds and their checksum seeds.
#[derive(Clone, Debug)]
pub struct MessageCatalog {
    pub messages: Vec<MessageInfo>,
}

/// Why a frame could not be decoded or encoded.
#[derive(Clone, Copy, Debug, PartialEq, Eq, Structural)]
pub enum CodecError {
    /// No start-of-frame marker in the input.
    NoMarker,
    /// A marker was found but the frame after it is not complete yet.
    Incomplete,
    /// The message identifier is not in the catalog.
    UnknownMessage(u32),
    /// The checksum field does not match the frame's contents.
    BadChecksum,
    /// The payload is longer than a frame can carry.
    PayloadTooLong,
    /// The message identifier does not fit the version's identifier field.
    MessageIdTooLarge,
}

/// The checksum seed of `id`: that of its first entry in `s`.
pub open spec fn crc_extra_in(s: Seq<MessageInfo>, id: u32) -> Option<u8>
    decreases s.len(),
{
    if s.len() == 0 {
        None
    } else if s[0].id == id {
        Some(s[0].crc_extra)
    } else {
        crc_extra_in(s.drop_first(), id)
    }
}

impl MessageCatalog {
    pub open spec fn extra_of(&self, id: u32) -> Option<u8> {
        crc_extra_in(self.messages@, id)
    }

    /// Looks up the checksum seed of a message identifier.
    pub fn crc_extra(&self, id: u32) -> (r: Option<u8>)
        ensures
            r == self.extra_of(id),
    {
        let mut i: usize = 0;
        assert(self.messages@.subrange(0, self.messages@.len() as int) =~= self.messages@);
        while i < self.messages.len()
            invariant
                i <= self.messages@.len(),
                crc_extra_in(self.messages@, id) == crc_extra_in(self.messages@.subrange(i as int, self.messages@.len() as int), id),
            decreases self.messages@.len() - i,
        {
            let ghost rest = self.messages@.subrange(i as int, self.messages@.len() as int);
            assert(rest.drop_first() =~= self.messages@.subrange(i + 1, self.messages@.len() as int));
            if self.messages[i].id == id {
                return Some(self.messages[i].crc_extra);
            }
            i = i + 1;
        }
        None
    }
}

pub open spec fn is_marker(b: u8) -> bool {
    b == MARKER_V1 || b == MARKER_V2
}

/// How many leading bytes of `s` are not a start-of-frame marker.
pub open spec fn skip_len(s: Seq<u8>) -> nat
    decreases s.len(),
{
    if s.len() == 0 || is_marker(s[0]) {
        0
    } else {
        1 + skip_len(s.drop_first())
    }
}

/// Header length of the frame that starts with marker `m`.
pub open spec fn header_len_of(m: u8) -> int {
    if m == MARKER_V1 { HEADER_LEN_V1 as int } else { HEADER_LEN_V2 as int }
}

/// Total length of the frame that starts `s` (whose header is complete).
pub open spec fn frame_len_of(s: Seq<u8>) -> int {
    if s[0] == MARKER_V1 {
        HEADER_LEN_V1 + s[1] + 2
    } else if s[2] & 1u8 == 1u8 {
        HEADER_LEN_V2 + s[1] + 2 + SIGNATURE_LEN
    } else {
        HEADER_LEN_V2 + s[1] + 2
    }
}

pub open spec fn frame_header_of(s: Seq<u8>) -> MavHeader {
    if s[0] == MARKER_V1 {
        MavHeader { sequence: s[2], system_id: s[3], component_id: s[4] }
    } else {
        MavHeader { sequence: s[4], system_id: s[5], component_id: s[6] }
    }
}

pub open spec fn frame_id_of(s: Seq<u8>) -> u32 {
    if s[0] == MARKER_V1 {
        s[5] as u32
    } else {
        (s[7] + s[8] * 256 + s[9] * 65536) as u32
    }
}

/// The payload of the frame that starts `s`.
pub open spec fn frame_payload_of(s: Seq<u8>) -> Seq<u8> {
    s.subrange(header_len_of(s[0]), header_len_of(s[0]) + s[1])
}

/// The checksum field of the frame that starts `s`, little-endian.
pub open spec fn frame_crc_field_of(s: Seq<u8>) -> u16 {
    let at = header_len_of(s[0]) + s[1];
    (s[at] + s[at + 1] * 256) as u16
}

/// The checksum over a frame's bytes after the marker, seeded last with `extra`.
pub open spec fn frame_crc(body: Seq<u8>, extra: u8) -> u16 {
    crc_step(crc_fold(CRC_INIT, body), extra)
}

/// The checksum that the frame starting `s` should carry.
pub open spec fn frame_crc_expected(s: Seq<u8>, extra: u8) -> u16 {
    frame_crc(s.subrange(1, header_len_of(s[0]) + s[1]), extra)
}

/// A decoded frame: header, message identifier and payload.
pub type FrameSpec = (MavHeader, u32, Seq<u8>);

/// Decoding of the frame that starts at the marker `s[0]`.
pub open spec fn decode_at(s: Seq<u8>, cat: Seq<MessageInfo>) -> Result<FrameSpec, CodecError> {
    if s.len() < header_len_of(s[0]) || s.len() < frame_len_of(s) {
        Err(CodecError::Incomplete)
    } else {
        match crc_extra_in(cat, frame_id_of(s)) {
            None => Err(CodecError::UnknownMessage(frame_id_of(s))),
            Some(extra) => if frame_crc_field_of(s) == frame_crc_expected(s, extra) {
                Ok((frame_header_of(s), frame_id_of(s), frame_payload_of(s)))
            } else {
                Err(CodecError::BadChecksum)
            },
        }
    }
}

/// One decoding attempt on `s`: how many bytes it consumes, and its outcome.
///
/// Bytes before the first marker are skipped. A complete valid frame is
/// consumed whole. A frame that is cut short consumes only the bytes before
/// its marker, so that more input can complete it. Any other failure consumes
/// the marker byte too, so that the next attempt makes progress.
pub open spec fn decode_spec(s: Seq<u8>, cat: Seq<MessageInfo>) -> (int, Result<FrameSpec, CodecError>) {
    let k = skip_len(s) as int;
    if k >= s.len() {
        (s.len() as int, Err(CodecError::NoMarker))
    } else {
        let t = s.subrange(k, s.len() as int);
        match decode_at(t, cat) {
            Ok(f) => (k + frame_len_of(t), Ok(f)),
            Err(CodecError::Incomplete) => (k, Err(CodecError::Incomplete)),
            Err(e) => (k + 1, Err(e)),
        }
    }
}

/// The bytes of a frame after its marker and before its payload.
pub open spec fn header_bytes(v: MavlinkVersion, h: MavHeader, id: u32, plen: u8) -> Seq<u8> {
    match v {
        MavlinkVersion::V1 => seq![plen, h.sequence, h.system_id, h.component_id, id as u8],
        MavlinkVersion::V2 => seq![
            plen,
            0u8,
            0u8,
            h.sequence,
            h.system_id,
            h.component_id,
            (id % 256) as u8,
            ((id / 256) % 256) as u8,
            (id / 65536) as u8,
        ],
    }
}

pub open spec fn marker_of(v: MavlinkVersion) -> u8 {
    match v {
        MavlinkVersion::V1 => MARKER_V1,
        MavlinkVersion::V2 => MARKER_V2,
    }
}

/// Whether `id` fits the identifier field of version `v`.
pub open spec fn id_fits(v: MavlinkVersion, id: u32) -> bool {
    match v {
        MavlinkVersion::V1 => id < 256,
        MavlinkVersion::V2 => id < MAX_MSG_ID_V2,
    }
}

/// The checksum little-endian, as it is written on the wire.
pub open spec fn crc_bytes(c: u16) -> Seq<u8> {
    seq![(c % 256) as u8, (c / 256) as u8]
}

/// The frame that carries message (`id`, `payload`) under header `h`.
pub open spec fn encode_spec(v: MavlinkVersion, h: MavHeader, id: u32, payload: Seq<u8>, extra: u8) -> Seq<u8> {
    let body = header_bytes(v, h, id, payload.len() as u8) + payload;
    seq![marker_of(v)] + body + crc_bytes(frame_crc(body, extra))
}

/// The result of encoding: which error, if any, and else the frame.
pub open spec fn encode_result(
    v: MavlinkVersion,
    h: MavHeader,
    id: u32,
    payload: Seq<u8>,
    cat: Seq<MessageInfo>,
) -> Result<Seq<u8>, CodecError> {
    if payload.len() > MAX_PAYLOAD_LEN {
        Err(CodecError::PayloadTooLong)
    } else if !id_fits(v, id) {
        Err(CodecError::MessageIdTooLarge)
    } else {
        match crc_extra_in(cat, id) {
            None => Err(CodecError::UnknownMessage(id)),
            Some(extra) => Ok(encode_spec(v, h, id, payload, extra)),
        }
    }
}

} // verus!
