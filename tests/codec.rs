use mavlink_link::codec::{decode, encode};
use mavlink_link::crc::{crc_accumulate, crc_accumulate_all, CRC_INIT};
use mavlink_link::frame::{CodecError, MavHeader, MavMessage, MavlinkVersion, MessageCatalog, MessageInfo};

fn catalog() -> MessageCatalog {
    MessageCatalog {
        messages: vec![
            MessageInfo { id: 0, crc_extra: 50 },
            MessageInfo { id: 0x012345, crc_extra: 7 },
            MessageInfo { id: 30, crc_extra: 39 },
        ],
    }
}

fn heartbeat() -> MavMessage {
    MavMessage { id: 0, payload: vec![0, 0, 0, 0, 2, 3, 0x51, 4, 3] }
}

const HEARTBEAT_V1: [u8; 17] = [254, 9, 7, 1, 1, 0, 0, 0, 0, 0, 2, 3, 81, 4, 3, 250, 173];
const LONG_ID_V2: [u8; 15] = [253, 3, 0, 0, 5, 9, 200, 69, 35, 1, 1, 2, 3, 232, 81];

#[test]
fn crc_check_value() {
    assert_eq!(crc_accumulate_all(CRC_INIT, b"123456789"), 0x6F91);
}

#[test]
fn crc_single_step() {
    assert_eq!(crc_accumulate(CRC_INIT, b'1'), crc_accumulate_all(CRC_INIT, b"1"));
    assert_ne!(crc_accumulate(CRC_INIT, 0), CRC_INIT);
}

#[test]
fn encode_v1_exact_bytes() {
    let h = MavHeader { sequence: 7, system_id: 1, component_id: 1 };
    let bytes = encode(MavlinkVersion::V1, &h, &heartbeat(), &catalog()).unwrap();
    assert_eq!(bytes, HEARTBEAT_V1.to_vec());
}

#[test]
fn encode_v2_exact_bytes() {
    let h = MavHeader { sequence: 5, system_id: 9, component_id: 200 };
    let m = MavMessage { id: 0x012345, payload: vec![1, 2, 3] };
    let bytes = encode(MavlinkVersion::V2, &h, &m, &catalog()).unwrap();
    assert_eq!(bytes, LONG_ID_V2.to_vec());
}

#[test]
fn decode_v1_exact_frame() {
    let (n, r) = decode(&HEARTBEAT_V1, &catalog());
    assert_eq!(n, 17);
    let (h, m) = r.unwrap();
    assert_eq!(h, MavHeader { sequence: 7, system_id: 1, component_id: 1 });
    assert_eq!(m, heartbeat());
}

#[test]
fn decode_v2_exact_frame() {
    let (n, r) = decode(&LONG_ID_V2, &catalog());
    assert_eq!(n, 15);
    let (h, m) = r.unwrap();
    assert_eq!(h, MavHeader { sequence: 5, system_id: 9, component_id: 200 });
    assert_eq!(m, MavMessage { id: 0x012345, payload: vec![1, 2, 3] });
}

#[test]
fn round_trip_both_versions() {
    let cat = catalog();
    let h = MavHeader { sequence: 200, system_id: 42, component_id: 17 };
    for v in [MavlinkVersion::V1, MavlinkVersion::V2] {
        for m in [heartbeat(), MavMessage { id: 30, payload: (0..28).collect() }, MavMessage { id: 30, payload: vec![] }] {
            let bytes = encode(v, &h, &m, &cat).unwrap();
            let (n, r) = decode(&bytes, &cat);
            assert_eq!(n, bytes.len());
            assert_eq!(r, Ok((h, m)));
        }
    }
}

#[test]
fn round_trip_largest_payload() {
    let cat = catalog();
    let h = MavHeader::get_default_header();
    let m = MavMessage { id: 30, payload: vec![0xFE; 255] };
    let bytes = encode(MavlinkVersion::V2, &h, &m, &cat).unwrap();
    assert_eq!(bytes.len(), 10 + 255 + 2);
    assert_eq!(decode(&bytes, &cat), (bytes.len(), Ok((h, m))));
}

#[test]
fn flipped_payload_byte_fails_checksum() {
    let cat = catalog();
    for i in 6..15 {
        let mut bytes = HEARTBEAT_V1.to_vec();
        bytes[i] ^= 0x01;
        assert_eq!(decode(&bytes, &cat), (1, Err(CodecError::BadChecksum)));
    }
    let mut bytes = LONG_ID_V2.to_vec();
    bytes[11] = 0xFF;
    assert_eq!(decode(&bytes, &cat), (1, Err(CodecError::BadChecksum)));
}

#[test]
fn decode_skips_garbage() {
    let mut bytes = vec![1, 2, 3, 0x55];
    bytes.extend_from_slice(&HEARTBEAT_V1);
    let (n, r) = decode(&bytes, &catalog());
    assert_eq!(n, 4 + 17);
    assert_eq!(r.unwrap().1, heartbeat());
}

#[test]
fn decode_no_marker() {
    assert_eq!(decode(&[1, 2, 3], &catalog()), (3, Err(CodecError::NoMarker)));
    assert_eq!(decode(&[], &catalog()), (0, Err(CodecError::NoMarker)));
}

#[test]
fn decode_incomplete_keeps_marker() {
    let bytes = [9, 9, 254, 9, 7];
    assert_eq!(decode(&bytes, &catalog()), (2, Err(CodecError::Incomplete)));
    assert_eq!(decode(&HEARTBEAT_V1[..16], &catalog()), (0, Err(CodecError::Incomplete)));
}

#[test]
fn decode_unknown_message() {
    let cat = MessageCatalog { messages: vec![MessageInfo { id: 30, crc_extra: 39 }] };
    assert_eq!(decode(&HEARTBEAT_V1, &cat), (1, Err(CodecError::UnknownMessage(0))));
}

#[test]
fn signed_v2_frame_is_skipped_over_whole() {
    let cat = catalog();
    let mut bytes = LONG_ID_V2.to_vec();
    bytes[2] = 1;
    // the incompatibility flag is covered by the checksum, so recompute it
    let end = bytes.len() - 2;
    let c = crc_accumulate(crc_accumulate_all(CRC_INIT, &bytes[1..end]), 7);
    bytes[end] = (c % 256) as u8;
    bytes[end + 1] = (c / 256) as u8;
    bytes.extend_from_slice(&[0xAA; 13]);
    let (n, r) = decode(&bytes, &cat);
    assert_eq!(n, 15 + 13);
    assert_eq!(r.unwrap().1, MavMessage { id: 0x012345, payload: vec![1, 2, 3] });
}

#[test]
fn encode_errors() {
    let cat = catalog();
    let h = MavHeader::get_default_header();
    let long = MavMessage { id: 30, payload: vec![0; 256] };
    assert_eq!(encode(MavlinkVersion::V1, &h, &long, &cat), Err(CodecError::PayloadTooLong));
    let wide = MavMessage { id: 0x012345, payload: vec![] };
    assert_eq!(encode(MavlinkVersion::V1, &h, &wide, &cat), Err(CodecError::MessageIdTooLarge));
    let huge = MavMessage { id: 0x0100_0000, payload: vec![] };
    assert_eq!(encode(MavlinkVersion::V2, &h, &huge, &cat), Err(CodecError::MessageIdTooLarge));
    let unknown = MavMessage { id: 31, payload: vec![] };
    assert_eq!(encode(MavlinkVersion::V2, &h, &unknown, &cat), Err(CodecError::UnknownMessage(31)));
}

#[test]
fn catalog_lookup_first_entry_wins() {
    let cat = MessageCatalog {
        messages: vec![MessageInfo { id: 5, crc_extra: 1 }, MessageInfo { id: 5, crc_extra: 2 }],
    };
    assert_eq!(cat.crc_extra(5), Some(1));
    assert_eq!(cat.crc_extra(6), None);
}

#[test]
fn default_header_values() {
    assert_eq!(MavHeader::get_default_header(), MavHeader { sequence: 0, system_id: 255, component_id: 0 });
}
