//! Laws relating the encoder and the decoder.
use vstd::prelude::*;
use crate::crc::{
    crc_fold, crc_step, lemma_crc_fold_append, lemma_crc_fold_state_injective,
    lemma_crc_step_byte_injective, lemma_crc_step_state_injective, CRC_INIT,
};
use crate::codec::lemma_skip_len;
use crate::frame::{
    crc_extra_in, decode_at, decode_spec, encode_result, encode_spec, frame_crc, frame_crc_expected,
    frame_crc_field_of, frame_header_of, frame_id_of, frame_len_of, frame_payload_of, header_bytes,
    header_len_of, id_fits, is_marker, CodecError, MavHeader, MavlinkVersion, MessageInfo,
    MAX_PAYLOAD_LEN,
};

verus! {

/// Whether `s` holds no start-of-frame marker.
pub open spec fn marker_free(s: Seq<u8>) -> bool {
    forall|j: int| 0 <= j < s.len() ==> !is_marker(#[trigger] s[j])
}

/// Length of the header of a frame of version `v`, marker included.
pub open spec fn version_header_len(v: MavlinkVersion) -> int {
    match v {
        MavlinkVersion::V1 => 6,
        MavlinkVersion::V2 => 10,
    }
}

proof fn lemma_id_bytes(id: u32)
    requires
        id < 0x100_0000,
    ensures
        ((id % 256) as u8) + ((id / 256) % 256) as u8 * 256 + ((id / 65536) as u8) * 65536 == id,
{
    assert(id / 65536 < 256) by (nonlinear_arith)
        requires id < 0x100_0000;
    assert((id % 256) + ((id / 256) % 256) * 256 + (id / 65536) * 65536 == id) by (nonlinear_arith);
}

/// The facts of the frame `f + rest` that the decoder reads, for an encoded frame `f`.
pub proof fn lemma_encoded_fields(v: MavlinkVersion, h: MavHeader, id: u32, payload: Seq<u8>, extra: u8, rest: Seq<u8>)
    requires
        payload.len() <= MAX_PAYLOAD_LEN,
        id_fits(v, id),
    ensures ({
        let f = encode_spec(v, h, id, payload, extra);
        let t = f + rest;
        let hl = version_header_len(v);
        &&& f.len() == hl + payload.len() + 2
        &&& is_marker(t[0])
        &&& header_len_of(t[0]) == hl
        &&& t[1] == payload.len()
        &&& frame_len_of(t) == f.len()
        &&& frame_header_of(t) == h
        &&& frame_id_of(t) == id
        &&& frame_payload_of(t) == payload
        &&& frame_crc_field_of(t) == frame_crc(header_bytes(v, h, id, payload.len() as u8) + payload, extra)
        &&& t.subrange(1, hl + payload.len()) == header_bytes(v, h, id, payload.len() as u8) + payload
    }),
{
    let f = encode_spec(v, h, id, payload, extra);
    let t = f + rest;
    let hl = version_header_len(v);
    let body = header_bytes(v, h, id, payload.len() as u8) + payload;
    let c = frame_crc(body, extra);
    assert(f.len() == hl + payload.len() + 2);
    assert(t.subrange(1, hl + payload.len()) =~= body);
    assert(t.subrange(hl, hl + payload.len()) =~= payload);
    assert(t[hl + payload.len()] == (c % 256) as u8);
    assert(t[hl + payload.len() + 1] == (c / 256) as u8);
    assert((c % 256) as u8 + ((c / 256) as u8) * 256 == c);
    match v {
        MavlinkVersion::V1 => {},
        MavlinkVersion::V2 => {
            assert(t[2] == 0u8);
            assert(0u8 & 1u8 == 0u8) by (bit_vector);
            lemma_id_bytes(id);
        },
    }
}

/// Decoding a stream that holds marker-free garbage `g`, then an encoded
/// frame, then anything, skips the garbage and yields exactly that frame.
pub proof fn lemma_decode_after_garbage(
    v: MavlinkVersion,
    h: MavHeader,
    id: u32,
    payload: Seq<u8>,
    cat: Seq<MessageInfo>,
    g: Seq<u8>,
    rest: Seq<u8>,
)
    requires
        encode_result(v, h, id, payload, cat) is Ok,
        marker_free(g),
    ensures
        decode_spec(g + encode_result(v, h, id, payload, cat)->Ok_0 + rest, cat) == (
            (g.len() + encode_result(v, h, id, payload, cat)->Ok_0.len()) as int,
            Ok::<_, CodecError>((h, id, payload)),
        ),
{
    let extra = crc_extra_in(cat, id)->Some_0;
    let f = encode_spec(v, h, id, payload, extra);
    let s = g + f + rest;
    lemma_encoded_fields(v, h, id, payload, extra, rest);
    assert forall|j: int| 0 <= j < g.len() implies !is_marker(#[trigger] s[j]) by {
        assert(s[j] == g[j]);
    }
    assert(s[g.len() as int] == (f + rest)[0]);
    lemma_skip_len(s, g.len() as int);
    let t = s.subrange(g.len() as int, s.len() as int);
    assert(t =~= f + rest);
    assert(decode_at(t, cat) == Ok::<_, CodecError>((h, id, payload)));
}

/// Round trip: decoding an encoded frame yields its header and message, and
/// consumes exactly the frame.
pub proof fn lemma_round_trip(v: MavlinkVersion, h: MavHeader, id: u32, payload: Seq<u8>, cat: Seq<MessageInfo>)
    requires
        encode_result(v, h, id, payload, cat) is Ok,
    ensures
        decode_spec(encode_result(v, h, id, payload, cat)->Ok_0, cat) == (
            encode_result(v, h, id, payload, cat)->Ok_0.len() as int,
            Ok::<_, CodecError>((h, id, payload)),
        ),
{
    let f = encode_result(v, h, id, payload, cat)->Ok_0;
    lemma_decode_after_garbage(v, h, id, payload, cat, Seq::empty(), Seq::empty());
    assert(Seq::<u8>::empty() + f + Seq::<u8>::empty() =~= f);
}

/// Changing one byte of a checksum input changes the checksum.
proof fn lemma_crc_detects_one_byte(body: Seq<u8>, i: int, b: u8, extra: u8)
    requires
        0 <= i < body.len(),
        body[i] != b,
    ensures
        frame_crc(body.update(i, b), extra) != frame_crc(body, extra),
{
    let pre = body.subrange(0, i);
    let post = body.subrange(i + 1, body.len() as int);
    let x = body[i];
    assert(body =~= pre + seq![x] + post);
    assert(body.update(i, b) =~= pre + seq![b] + post);
    lemma_crc_fold_append(CRC_INIT, pre + seq![x], post);
    lemma_crc_fold_append(CRC_INIT, pre + seq![b], post);
    lemma_crc_fold_append(CRC_INIT, pre, seq![x]);
    lemma_crc_fold_append(CRC_INIT, pre, seq![b]);
    let c0 = crc_fold(CRC_INIT, pre);
    assert(seq![x].drop_last() =~= Seq::<u8>::empty());
    assert(seq![b].drop_last() =~= Seq::<u8>::empty());
    assert(crc_fold(c0, Seq::<u8>::empty()) == c0);
    assert(seq![x].last() == x && seq![b].last() == b);
    assert(crc_fold(c0, seq![x]) == crc_step(c0, x));
    assert(crc_fold(c0, seq![b]) == crc_step(c0, b));
    lemma_crc_step_byte_injective(c0, x, b);
    lemma_crc_fold_state_injective(crc_step(c0, b), crc_step(c0, x), post);
    lemma_crc_step_state_injective(crc_fold(CRC_INIT, body.update(i, b)), crc_fold(CRC_INIT, body), extra);
}

/// Checksum sensitivity: replacing any one payload byte of an encoded frame
/// by another value makes decoding fail with a checksum error at that frame.
pub proof fn lemma_payload_change_detected(
    v: MavlinkVersion,
    h: MavHeader,
    id: u32,
    payload: Seq<u8>,
    cat: Seq<MessageInfo>,
    i: int,
    b: u8,
)
    requires
        encode_result(v, h, id, payload, cat) is Ok,
        0 <= i < payload.len(),
        payload[i] != b,
    ensures
        decode_spec(
            encode_result(v, h, id, payload, cat)->Ok_0.update(version_header_len(v) + i, b),
            cat,
        ) == (1int, Err::<(MavHeader, u32, Seq<u8>), _>(CodecError::BadChecksum)),
{
    let extra = crc_extra_in(cat, id)->Some_0;
    let f = encode_spec(v, h, id, payload, extra);
    let hl = version_header_len(v);
    let at = hl + i;
    let s = f.update(at, b);
    let body = header_bytes(v, h, id, payload.len() as u8) + payload;
    lemma_encoded_fields(v, h, id, payload, extra, Seq::empty());
    assert(f + Seq::<u8>::empty() =~= f);
    lemma_skip_len(s, 0);
    let t = s.subrange(0, s.len() as int);
    assert(t =~= s);
    assert(t[0] == f[0] && t[1] == f[1] && t[2] == f[2]);
    assert(frame_header_of(t) == frame_header_of(f));
    assert(frame_id_of(t) == frame_id_of(f));
    assert(frame_len_of(t) == frame_len_of(f));
    assert(frame_crc_field_of(t) == frame_crc_field_of(f));
    assert(t.subrange(1, hl + payload.len()) =~= body.update(at - 1, b));
    assert(body[at - 1] == payload[i]);
    lemma_crc_detects_one_byte(body, at - 1, b, extra);
    assert(frame_crc_expected(t, extra) != frame_crc_field_of(t));
}

} // verus!
