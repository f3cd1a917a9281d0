//! Executable frame encoder and decoder.
use vstd::prelude::*;
use crate::crc::{crc_accumulate, crc_accumulate_all, CRC_INIT};
use crate::frame::{
    crc_bytes, decode_spec, encode_result, encode_spec, frame_crc, frame_crc_expected,
    frame_crc_field_of, frame_header_of, frame_id_of, frame_len_of, frame_payload_of, header_bytes,
    header_len_of, is_marker, marker_of, skip_len, CodecError, FrameSpec, MavHeader, MavMessage,
    MavlinkVersion, MessageCatalog, HEADER_LEN_V1, HEADER_LEN_V2, MARKER_V1, MARKER_V2,
    MAX_MSG_ID_V2, MAX_PAYLOAD_LEN, SIGNATURE_LEN,
};

verus! {

/// Whether an executable decoding outcome is the one described by `s`.
pub open spec fn outcome_matches(
    r: Result<(MavHeader, MavMessage), CodecError>,
    s: Result<FrameSpec, CodecError>,
) -> bool {
    match (r, s) {
        (Ok((h, m)), Ok((sh, sid, sp))) => h == sh && m.id == sid && m.payload@ == sp,
        (Err(e), Err(se)) => e == se,
        _ => false,
    }
}

/// If no byte before `k` is a marker and `k` is the end or a marker, `k`
/// bytes are skipped.
pub proof fn lemma_skip_len(s: Seq<u8>, k: int)
    requires
        0 <= k <= s.len(),
        forall|j: int| 0 <= j < k ==> !is_marker(#[trigger] s[j]),
        k == s.len() || is_marker(s[k]),
    ensures
        skip_len(s) == k,
    decreases k,
{
    if k > 0 {
        assert(!is_marker(s[0]));
        let t = s.drop_first();
        assert forall|j: int| 0 <= j < k - 1 implies !is_marker(#[trigger] t[j]) by {
            assert(t[j] == s[j + 1]);
        }
        lemma_skip_len(t, k - 1);
    }
}

/// Copies `buf[from..to]` into a new vector.
pub(crate) fn copy_range(buf: &[u8], from: usize, to: usize) -> (r: Vec<u8>)
    requires
        from <= to <= buf@.len(),
    ensures
        r@ == buf@.subrange(from as int, to as int),
{
    let mut r: Vec<u8> = Vec::with_capacity(to - from);
    let mut i: usize = from;
    while i < to
        invariant
            from <= i <= to <= buf@.len(),
            r@ == buf@.subrange(from as int, i as int),
        decreases to - i,
    {
        r.push(buf[i]);
        i = i + 1;
        assert(r@ =~= buf@.subrange(from as int, i as int));
    }
    r
}

/// Attempts to decode one frame from the front of `buf`.
///
/// Returns how many bytes were consumed together with the outcome, as
/// `decode_spec` describes: garbage before the first marker is skipped, a
/// valid frame is consumed whole, a truncated frame is left in place, and any
/// other failure consumes its marker byte.
pub fn decode(buf: &[u8], catalog: &MessageCatalog) -> (r: (usize, Result<(MavHeader, MavMessage), CodecError>))
    ensures
        r.0 == decode_spec(buf@, catalog.messages@).0,
        outcome_matches(r.1, decode_spec(buf@, catalog.messages@).1),
{
    let n = buf.len();
    let mut k: usize = 0;
    while k < n && !(buf[k] == MARKER_V1 || buf[k] == MARKER_V2)
        invariant
            k <= n == buf@.len(),
            forall|j: int| 0 <= j < k ==> !is_marker(#[trigger] buf@[j]),
        decreases n - k,
    {
        k = k + 1;
    }
    proof {
        lemma_skip_len(buf@, k as int);
    }
    if k >= n {
        return (n, Err(CodecError::NoMarker));
    }
    let ghost t = buf@.subrange(k as int, n as int);
    let marker = buf[k];
    let hl: usize = if marker == MARKER_V1 { HEADER_LEN_V1 } else { HEADER_LEN_V2 };
    if n - k < hl {
        return (k, Err(CodecError::Incomplete));
    }
    let plen = buf[k + 1] as usize;
    let total: usize = if marker == MARKER_V1 {
        HEADER_LEN_V1 + plen + 2
    } else if buf[k + 2] & 1u8 == 1u8 {
        HEADER_LEN_V2 + plen + 2 + SIGNATURE_LEN
    } else {
        HEADER_LEN_V2 + plen + 2
    };
    assert(total == frame_len_of(t));
    if n - k < total {
        return (k, Err(CodecError::Incomplete));
    }
    let (header, id) = if marker == MARKER_V1 {
        (MavHeader { sequence: buf[k + 2], system_id: buf[k + 3], component_id: buf[k + 4] }, buf[k + 5] as u32)
    } else {
        (
            MavHeader { sequence: buf[k + 4], system_id: buf[k + 5], component_id: buf[k + 6] },
            buf[k + 7] as u32 + buf[k + 8] as u32 * 256 + buf[k + 9] as u32 * 65536,
        )
    };
    assert(header == frame_header_of(t));
    assert(id == frame_id_of(t));
    let extra = match catalog.crc_extra(id) {
        None => {
            return (k + 1, Err(CodecError::UnknownMessage(id)));
        },
        Some(e) => e,
    };
    let body_end = k + hl + plen;
    let c = crc_accumulate_all(CRC_INIT, &buf[k + 1..body_end]);
    let c = crc_accumulate(c, extra);
    assert(buf@.subrange(k + 1, body_end as int) =~= t.subrange(1, header_len_of(t[0]) + t[1]));
    assert(c == frame_crc_expected(t, extra));
    let field: u16 = (buf[body_end] as u16) + (buf[body_end + 1] as u16) * 256;
    assert(field == frame_crc_field_of(t));
    if field != c {
        return (k + 1, Err(CodecError::BadChecksum));
    }
    let payload = copy_range(buf, k + hl, body_end);
    assert(payload@ =~= frame_payload_of(t));
    (k + total, Ok((header, MavMessage { id, payload })))
}

/// Whether an executable encoding outcome is the one described by `s`.
pub open spec fn encoding_matches(r: Result<Vec<u8>, CodecError>, s: Result<Seq<u8>, CodecError>) -> bool {
    match (r, s) {
        (Ok(b), Ok(sb)) => b@ == sb,
        (Err(e), Err(se)) => e == se,
        _ => false,
    }
}

/// Encodes `message` under `header` as one frame of `version`.
///
/// Fails when the payload is longer than a frame carries, when the
/// identifier does not fit the version, or when the catalog does not know
/// the message.
pub fn encode(version: MavlinkVersion, header: &MavHeader, message: &MavMessage, catalog: &MessageCatalog) -> (r: Result<Vec<u8>, CodecError>)
    ensures
        encoding_matches(r, encode_result(version, *header, message.id, message.payload@, catalog.messages@)),
{
    let plen = message.payload.len();
    if plen > MAX_PAYLOAD_LEN {
        return Err(CodecError::PayloadTooLong);
    }
    let id = message.id;
    let fits = match version {
        MavlinkVersion::V1 => id < 256,
        MavlinkVersion::V2 => id < MAX_MSG_ID_V2,
    };
    if !fits {
        return Err(CodecError::MessageIdTooLarge);
    }
    let extra = match catalog.crc_extra(id) {
        None => {
            return Err(CodecError::UnknownMessage(id));
        },
        Some(e) => e,
    };
    let mut out: Vec<u8> = Vec::with_capacity(HEADER_LEN_V2 + plen + 2);
    let len_byte = plen as u8;
    match version {
        MavlinkVersion::V1 => {
            out.push(MARKER_V1);
            out.push(len_byte);
            out.push(header.sequence);
            out.push(header.system_id);
            out.push(header.component_id);
            out.push(id as u8);
        },
        MavlinkVersion::V2 => {
            out.push(MARKER_V2);
            out.push(len_byte);
            out.push(0u8);
            out.push(0u8);
            out.push(header.sequence);
            out.push(header.system_id);
            out.push(header.component_id);
            out.push((id % 256) as u8);
            out.push(((id / 256) % 256) as u8);
            out.push((id / 65536) as u8);
        },
    }
    let ghost head = header_bytes(version, *header, id, len_byte);
    assert(out@ =~= seq![marker_of(version)] + head);
    let mut i: usize = 0;
    while i < plen
        invariant
            i <= plen == message.payload@.len(),
            out@ == seq![marker_of(version)] + head + message.payload@.subrange(0, i as int),
        decreases plen - i,
    {
        out.push(message.payload[i]);
        i = i + 1;
        assert(out@ =~= seq![marker_of(version)] + head + message.payload@.subrange(0, i as int));
    }
    let ghost body = head + message.payload@;
    assert(message.payload@.subrange(0, plen as int) =~= message.payload@);
    let olen = out.len();
    let c = crc_accumulate_all(CRC_INIT, &out.as_slice()[1..olen]);
    assert(out@.subrange(1, olen as int) =~= body);
    let c = crc_accumulate(c, extra);
    assert(c == frame_crc(body, extra));
    out.push((c % 256) as u8);
    out.push((c / 256) as u8);
    assert(out@ =~= seq![marker_of(version)] + body + crc_bytes(c));
    assert(out@ == encode_spec(version, *header, id, message.payload@, extra));
    Ok(out)
}

} // verus!
