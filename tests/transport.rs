use mavlink_link::codec::encode;
use mavlink_link::frame::{CodecError, MavHeader, MavMessage, MavlinkVersion, MessageCatalog, MessageInfo};
use mavlink_link::receive::{PacketBuf, StreamBuf, PACKET_BUF_CAPACITY};
use mavlink_link::sequence::{DatagramSender, Sequencer};

fn catalog() -> MessageCatalog {
    MessageCatalog { messages: vec![MessageInfo { id: 0, crc_extra: 50 }, MessageInfo { id: 30, crc_extra: 39 }] }
}

fn frame(seq: u8, id: u32, payload: Vec<u8>) -> (MavHeader, MavMessage, Vec<u8>) {
    let h = MavHeader { sequence: seq, system_id: 1, component_id: 2 };
    let m = MavMessage { id, payload };
    let bytes = encode(MavlinkVersion::V2, &h, &m, &catalog()).unwrap();
    (h, m, bytes)
}

#[test]
fn packet_buf_lifecycle() {
    let mut b = PacketBuf::new();
    assert_eq!(b.len(), 0);
    b.load(&[1, 2, 3, 4]);
    assert_eq!(b.len(), 4);
    assert_eq!(b.slice(), &[1, 2, 3, 4]);
    b.reset();
    assert_eq!(b.len(), 0);
    b.set_len(3);
    assert_eq!(b.slice(), &[1, 2, 3]);
}

#[test]
fn packet_buf_largest_datagram() {
    let mut b = PacketBuf::new();
    let data = vec![7u8; PACKET_BUF_CAPACITY];
    b.load(&data);
    assert_eq!(b.len(), PACKET_BUF_CAPACITY);
    assert_eq!(b.next_frame(&catalog()), None);
    assert_eq!(b.len(), 0);
}

#[test]
fn datagram_with_two_frames_yields_both() {
    let (ha, ma, fa) = frame(1, 0, vec![1, 2, 3]);
    let (hb, mb, fb) = frame(2, 30, vec![9; 28]);
    let mut data = fa.clone();
    data.extend_from_slice(&fb);
    let mut b = PacketBuf::new();
    b.load(&data);
    assert_eq!(b.next_frame(&catalog()), Some((ha, ma)));
    assert_eq!(b.slice(), fb.as_slice());
    assert_eq!(b.next_frame(&catalog()), Some((hb, mb)));
    assert_eq!(b.len(), 0);
    assert_eq!(b.next_frame(&catalog()), None);
}

#[test]
fn datagram_resynchronises_after_garbage() {
    let (ha, ma, fa) = frame(1, 0, vec![1, 2, 3]);
    let (hb, mb, fb) = frame(2, 30, vec![]);
    // garbage holding a marker that starts no valid frame
    let mut data = vec![0x10, 0xFE, 0x20, 0x30, 0xFD];
    data.extend_from_slice(&fa);
    data.extend_from_slice(&fb);
    let mut b = PacketBuf::new();
    b.load(&data);
    assert_eq!(b.next_frame(&catalog()), Some((ha, ma)));
    assert_eq!(b.next_frame(&catalog()), Some((hb, mb)));
    assert_eq!(b.next_frame(&catalog()), None);
}

#[test]
fn datagram_truncated_frame_is_dropped() {
    let (_, _, fa) = frame(1, 0, vec![1, 2, 3]);
    let mut b = PacketBuf::new();
    b.load(&fa[..fa.len() - 1]);
    assert_eq!(b.next_frame(&catalog()), None);
    assert_eq!(b.len(), 0);
}

#[test]
fn stream_resynchronises_after_garbage() {
    let (ha, ma, fa) = frame(1, 0, vec![1, 2, 3]);
    let (hb, mb, fb) = frame(2, 30, vec![4]);
    let mut s = StreamBuf::new();
    s.push(&[0x00, 0x11, 0x22]);
    s.push(&fa);
    s.push(&fb);
    assert_eq!(s.next_frame(&catalog()), Some((ha, ma)));
    assert_eq!(s.next_frame(&catalog()), Some((hb, mb)));
    assert_eq!(s.next_frame(&catalog()), None);
}

#[test]
fn stream_waits_for_rest_of_frame() {
    let (ha, ma, fa) = frame(3, 0, vec![5, 6]);
    let mut s = StreamBuf::new();
    s.push(&[0x42]);
    s.push(&fa[..4]);
    assert_eq!(s.next_frame(&catalog()), None);
    s.push(&fa[4..]);
    assert_eq!(s.next_frame(&catalog()), Some((ha, ma)));
}

#[test]
fn stream_drops_corrupt_frame() {
    let (_, _, mut fa) = frame(3, 0, vec![5, 6]);
    let (hb, mb, fb) = frame(4, 0, vec![7]);
    fa[10] ^= 0xFF;
    let mut s = StreamBuf::new();
    s.push(&fa);
    s.push(&fb);
    assert_eq!(s.next_frame(&catalog()), Some((hb, mb)));
}

#[test]
fn sequencer_counts_and_wraps() {
    let cat = catalog();
    let mut s = Sequencer::new();
    let h = MavHeader { sequence: 99, system_id: 3, component_id: 4 };
    let m = MavMessage { id: 0, payload: vec![] };
    for k in 0..300u32 {
        let bytes = s.frame(MavlinkVersion::V1, &h, &m, &cat).unwrap();
        assert_eq!(bytes[2], (k % 256) as u8);
        assert_eq!(bytes[3], 3);
        assert_eq!(bytes[4], 4);
    }
    assert_eq!(s.peek(), (300 % 256) as u8);
}

#[test]
fn sequencer_keeps_number_on_encode_error() {
    let mut s = Sequencer::new();
    let h = MavHeader::get_default_header();
    let bad = MavMessage { id: 77, payload: vec![] };
    assert_eq!(s.frame(MavlinkVersion::V2, &h, &bad, &catalog()), Err(CodecError::UnknownMessage(77)));
    assert_eq!(s.peek(), 0);
    s.advance();
    assert_eq!(s.peek(), 1);
}

#[test]
fn listener_sends_nothing_until_peer_known() {
    let cat = catalog();
    let mut w: DatagramSender<u16> = DatagramSender::new(None);
    let h = MavHeader::get_default_header();
    let m = MavMessage { id: 0, payload: vec![1] };
    assert_eq!(w.send(MavlinkVersion::V2, &h, &m, &cat), Ok(None));
    w.learn_peer(14550);
    let (bytes, to) = w.send(MavlinkVersion::V2, &h, &m, &cat).unwrap().unwrap();
    assert_eq!(to, 14550);
    assert_eq!(bytes[4], 1);
    w.learn_peer(14551);
    let (_, to) = w.send(MavlinkVersion::V2, &h, &m, &cat).unwrap().unwrap();
    assert_eq!(to, 14551);
}

#[test]
fn fixed_destination_sender() {
    let mut w: DatagramSender<u16> = DatagramSender::new(Some(9));
    let m = MavMessage { id: 30, payload: vec![] };
    let h = MavHeader { sequence: 0, system_id: 8, component_id: 9 };
    let (bytes, to) = w.send(MavlinkVersion::V1, &h, &m, &catalog()).unwrap().unwrap();
    assert_eq!(to, 9);
    assert_eq!(bytes, encode(MavlinkVersion::V1, &h, &m, &catalog()).unwrap());
}

#[test]
fn packet_buf_new_is_zeroed_with_cursors_at_start() {
    let mut b = PacketBuf::new();
    assert_eq!(b.len(), 0);
    b.set_len(PACKET_BUF_CAPACITY);
    assert_eq!(b.len(), PACKET_BUF_CAPACITY);
    assert!(b.slice().iter().all(|&x| x == 0));
}

#[test]
fn corrupted_datagram_then_valid_datagram() {
    let cat = catalog();
    let h = MavHeader { sequence: 7, system_id: 1, component_id: 1 };
    let m = MavMessage { id: 0, payload: vec![0, 0, 0, 0, 2, 3, 0x51, 4, 3] };
    let mut bad = encode(MavlinkVersion::V1, &h, &m, &cat).unwrap();
    bad[10] ^= 0x01;
    let (h2, m2, good) = frame(8, 30, vec![1, 2]);
    let mut b = PacketBuf::new();
    b.load(&bad);
    assert_eq!(b.next_frame(&cat), None);
    assert_eq!(b.len(), 0);
    b.load(&good);
    assert_eq!(b.next_frame(&cat), Some((h2, m2)));
}

#[test]
fn stream_corrupted_frame_then_valid_frame() {
    let cat = catalog();
    let h = MavHeader { sequence: 7, system_id: 1, component_id: 1 };
    let m = MavMessage { id: 0, payload: vec![0, 0, 0, 0, 2, 3, 0x51, 4, 3] };
    let mut bad = encode(MavlinkVersion::V1, &h, &m, &cat).unwrap();
    bad[6] ^= 0x80;
    let (h2, m2, good) = frame(8, 30, vec![1, 2]);
    let mut s = StreamBuf::new();
    s.push(&bad);
    assert_eq!(s.next_frame(&cat), None);
    s.push(&good);
    assert_eq!(s.next_frame(&cat), Some((h2, m2)));
}

#[test]
fn stream_frame_in_many_chunks() {
    let (ha, ma, fa) = frame(9, 30, vec![3; 20]);
    let mut s = StreamBuf::new();
    for k in 0..fa.len() - 1 {
        s.push(&fa[k..k + 1]);
        assert_eq!(s.next_frame(&catalog()), None);
    }
    s.push(&fa[fa.len() - 1..]);
    assert_eq!(s.next_frame(&catalog()), Some((ha, ma)));
}
