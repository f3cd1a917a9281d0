//! Receive-side buffers: which frame comes out next, and which bytes stay.
use vstd::prelude::*;
use crate::codec::{copy_range, decode};
use crate::codec::lemma_skip_len;
use crate::roundtrip::{
    lemma_decode_after_garbage, lemma_encoded_fields, lemma_payload_change_detected, lemma_round_trip,
    marker_free, version_header_len,
};
use crate::frame::{
    crc_extra_in, decode_at, frame_len_of, header_len_of, is_marker, decode_spec, encode_result, skip_len, CodecError, FrameSpec, MavHeader, MavMessage, MavlinkVersion,
    MessageCatalog, MessageInfo,
};

verus! {

/// Capacity of a datagram receive buffer: the largest datagram.
pub const PACKET_BUF_CAPACITY: usize = 65536;

/// At most every byte is skipped.
pub proof fn lemma_skip_len_bound(s: Seq<u8>)
    ensures
        skip_len(s) <= s.len(),
    decreases s.len(),
{
    if s.len() > 0 {
        lemma_skip_len_bound(s.drop_first());
    }
}

/// A decoding attempt stays within its input, and makes progress on a
/// non-empty input except where a frame is cut short.
pub proof fn lemma_decode_progress(s: Seq<u8>, cat: Seq<MessageInfo>)
    ensures
        0 <= decode_spec(s, cat).0 <= s.len(),
        s.len() > 0 && decode_spec(s, cat).1 != Err::<FrameSpec, _>(CodecError::Incomplete) ==> decode_spec(s, cat).0 >= 1,
        decode_spec(s, cat).1 == Err::<FrameSpec, _>(CodecError::Incomplete) ==> decode_spec(s, cat).0 < s.len(),
{
    lemma_skip_len_bound(s);
}

/// Whether an executable frame is the one described by `s`.
pub open spec fn frame_opt_matches(r: Option<(MavHeader, MavMessage)>, s: Option<FrameSpec>) -> bool {
    match (r, s) {
        (Some((h, m)), Some((sh, sid, sp))) => h == sh && m.id == sid && m.payload@ == sp,
        (None, None) => true,
        _ => false,
    }
}

/// The next frame of the rest `s` of a datagram, and what then remains.
///
/// Within one datagram nothing more will arrive, so a frame cut short is
/// skipped like any other invalid frame.
pub open spec fn datagram_next(s: Seq<u8>, cat: Seq<MessageInfo>) -> (Seq<u8>, Option<FrameSpec>)
    decreases s.len(),
    via datagram_next_decreases
{
    if s.len() == 0 {
        (s, None)
    } else {
        let (n, r) = decode_spec(s, cat);
        match r {
            Ok(f) => (s.subrange(n, s.len() as int), Some(f)),
            Err(CodecError::Incomplete) => datagram_next(s.subrange(n + 1, s.len() as int), cat),
            Err(_) => datagram_next(s.subrange(n, s.len() as int), cat),
        }
    }
}

#[via_fn]
proof fn datagram_next_decreases(s: Seq<u8>, cat: Seq<MessageInfo>) {
    lemma_decode_progress(s, cat);
}

/// The next frame of the pending bytes `s` of a stream, and what then remains.
///
/// A frame cut short stays pending, with the garbage before it dropped, until
/// more bytes arrive.
pub open spec fn stream_next(s: Seq<u8>, cat: Seq<MessageInfo>) -> (Seq<u8>, Option<FrameSpec>)
    decreases s.len(),
    via stream_next_decreases
{
    if s.len() == 0 {
        (s, None)
    } else {
        let (n, r) = decode_spec(s, cat);
        match r {
            Ok(f) => (s.subrange(n, s.len() as int), Some(f)),
            Err(CodecError::Incomplete) => (s.subrange(n, s.len() as int), None),
            Err(_) => stream_next(s.subrange(n, s.len() as int), cat),
        }
    }
}

#[via_fn]
proof fn stream_next_decreases(s: Seq<u8>, cat: Seq<MessageInfo>) {
    lemma_decode_progress(s, cat);
}

/// A reusable buffer that holds one datagram and the cursors of its
/// unconsumed part.
pub struct PacketBuf {
    buf: Vec<u8>,
    start: usize,
    end: usize,
}

impl PacketBuf {
    /// The whole storage, filled or not.
    pub closed spec fn storage(&self) -> Seq<u8> {
        self.buf@
    }

    /// Where the unconsumed bytes begin.
    pub closed spec fn start_pos(&self) -> nat {
        self.start as nat
    }

    /// Where the bytes of the last datagram end.
    pub closed spec fn end_pos(&self) -> nat {
        self.end as nat
    }

    /// The storage has full capacity and the cursors lie within it, in order.
    pub open spec fn wf(&self) -> bool {
        &&& self.storage().len() == PACKET_BUF_CAPACITY
        &&& self.start_pos() <= self.end_pos() <= PACKET_BUF_CAPACITY
    }

    /// The unconsumed bytes of the last datagram.
    pub open spec fn pending(&self) -> Seq<u8> {
        self.storage().subrange(self.start_pos() as int, self.end_pos() as int)
    }

    /// An empty buffer of full capacity, zeroed, with both cursors at zero.
    pub fn new() -> (r: PacketBuf)
        ensures
            r.wf(),
            r.storage() == Seq::new(PACKET_BUF_CAPACITY as nat, |i: int| 0u8),
            r.start_pos() == 0,
            r.end_pos() == 0,
            r.pending().len() == 0,
    {
        let v: Vec<u8> = vec![0u8; PACKET_BUF_CAPACITY];
        PacketBuf { buf: v, start: 0, end: 0 }
    }

    /// Drops whatever is pending, exposing the full capacity for a new datagram.
    pub fn reset(&mut self)
        requires
            old(self).wf(),
        ensures
            final(self).wf(),
            final(self).pending().len() == 0,
            final(self).start_pos() == 0,
            final(self).end_pos() == 0,
            final(self).storage() == old(self).storage(),
    {
        self.start = 0;
        self.end = 0;
    }

    /// Marks the first `size` bytes after the start as filled.
    pub fn set_len(&mut self, size: usize)
        requires
            old(self).wf(),
            old(self).start_pos() <= size <= PACKET_BUF_CAPACITY,
        ensures
            final(self).wf(),
            final(self).storage() == old(self).storage(),
            final(self).start_pos() == old(self).start_pos(),
            final(self).end_pos() == size,
            final(self).pending() == old(self).storage().subrange(old(self).start_pos() as int, size as int),
    {
        self.end = size;
    }

    /// Replaces the buffer's contents by the datagram `data`.
    pub fn load(&mut self, data: &[u8])
        requires
            old(self).wf(),
            data@.len() <= PACKET_BUF_CAPACITY,
        ensures
            final(self).wf(),
            final(self).pending() == data@,
    {
        self.reset();
        let mut i: usize = 0;
        while i < data.len()
            invariant
                self.wf(),
                self.start == 0,
                i <= data@.len() <= PACKET_BUF_CAPACITY,
                self.buf@.subrange(0, i as int) == data@.subrange(0, i as int),
            decreases data@.len() - i,
        {
            self.buf.set(i, data[i]);
            i = i + 1;
            assert(self.buf@.subrange(0, i as int) =~= data@.subrange(0, i as int));
        }
        self.set_len(data.len());
        assert(data@.subrange(0, i as int) =~= data@);
    }

    /// The unconsumed bytes.
    pub fn slice(&self) -> (r: &[u8])
        requires
            self.wf(),
        ensures
            r@ == self.pending(),
    {
        &self.buf.as_slice()[self.start..self.end]
    }

    /// How many bytes are unconsumed.
    pub fn len(&self) -> (r: usize)
        requires
            self.wf(),
        ensures
            r == self.pending().len(),
    {
        self.end - self.start
    }

    /// Decodes the next valid frame of the pending bytes, skipping invalid
    /// ones. `None` means the datagram is used up and a new one is needed.
    pub fn next_frame(&mut self, catalog: &MessageCatalog) -> (r: Option<(MavHeader, MavMessage)>)
        requires
            old(self).wf(),
        ensures
            final(self).wf(),
            final(self).pending() == datagram_next(old(self).pending(), catalog.messages@).0,
            frame_opt_matches(r, datagram_next(old(self).pending(), catalog.messages@).1),
            r is None ==> final(self).pending().len() == 0,
    {
        loop
            invariant
                self.wf(),
                datagram_next(self.pending(), catalog.messages@) == datagram_next(old(self).pending(), catalog.messages@),
            decreases self.end - self.start,
        {
            if self.start == self.end {
                return None;
            }
            let ghost s = self.pending();
            let (n, r) = decode(self.slice(), catalog);
            proof {
                lemma_decode_progress(s, catalog.messages@);
            }
            match r {
                Ok(f) => {
                    self.start = self.start + n;
                    assert(self.pending() =~= s.subrange(n as int, s.len() as int));
                    return Some(f);
                },
                Err(CodecError::Incomplete) => {
                    self.start = self.start + n + 1;
                    assert(self.pending() =~= s.subrange(n + 1, s.len() as int));
                },
                Err(_) => {
                    self.start = self.start + n;
                    assert(self.pending() =~= s.subrange(n as int, s.len() as int));
                },
            }
        }
    }
}

/// Bytes received from a byte stream and not yet decoded.
pub struct StreamBuf {
    pending: Vec<u8>,
}

impl StreamBuf {
    pub closed spec fn pending(&self) -> Seq<u8> {
        self.pending@
    }

    /// A buffer with nothing pending.
    pub fn new() -> (r: StreamBuf)
        ensures
            r.pending().len() == 0,
    {
        StreamBuf { pending: Vec::new() }
    }

    /// Appends bytes read from the stream.
    pub fn push(&mut self, data: &[u8])
        ensures
            final(self).pending() == old(self).pending() + data@,
    {
        let mut i: usize = 0;
        while i < data.len()
            invariant
                i <= data@.len(),
                self.pending() == old(self).pending() + data@.subrange(0, i as int),
            decreases data@.len() - i,
        {
            self.pending.push(data[i]);
            i = i + 1;
            assert(self.pending() =~= old(self).pending() + data@.subrange(0, i as int));
        }
        assert(data@.subrange(0, i as int) =~= data@);
    }

    /// Decodes the next valid frame of the pending bytes, dropping invalid
    /// ones. `None` means more bytes are needed.
    pub fn next_frame(&mut self, catalog: &MessageCatalog) -> (r: Option<(MavHeader, MavMessage)>)
        ensures
            final(self).pending() == stream_next(old(self).pending(), catalog.messages@).0,
            frame_opt_matches(r, stream_next(old(self).pending(), catalog.messages@).1),
    {
        loop
            invariant
                stream_next(self.pending(), catalog.messages@) == stream_next(old(self).pending(), catalog.messages@),
            decreases self.pending@.len(),
        {
            let len = self.pending.len();
            if len == 0 {
                return None;
            }
            let ghost s = self.pending();
            let (n, r) = decode(self.pending.as_slice(), catalog);
            proof {
                lemma_decode_progress(s, catalog.messages@);
            }
            self.pending = copy_range(self.pending.as_slice(), n, len);
            match r {
                Ok(f) => {
                    return Some(f);
                },
                Err(CodecError::Incomplete) => {
                    return None;
                },
                Err(_) => {},
            }
        }
    }
}

/// The frame that encodes (`id`, `p`) under `h` in version `v`.
pub open spec fn encoded(v: MavlinkVersion, h: MavHeader, id: u32, p: Seq<u8>, cat: Seq<MessageInfo>) -> Seq<u8> {
    encode_result(v, h, id, p, cat)->Ok_0
}

/// After marker-free garbage `g`, an encoded frame comes out whole of a
/// datagram buffer and of a stream buffer alike, and whatever follows it
/// stays pending.
pub proof fn lemma_first_after_garbage(
    v: MavlinkVersion,
    h: MavHeader,
    id: u32,
    p: Seq<u8>,
    cat: Seq<MessageInfo>,
    g: Seq<u8>,
    rest: Seq<u8>,
)
    requires
        encode_result(v, h, id, p, cat) is Ok,
        marker_free(g),
    ensures
        datagram_next(g + encoded(v, h, id, p, cat) + rest, cat) == (rest, Some((h, id, p))),
        stream_next(g + encoded(v, h, id, p, cat) + rest, cat) == (rest, Some((h, id, p))),
{
    let f = encoded(v, h, id, p, cat);
    let s = g + f + rest;
    lemma_decode_after_garbage(v, h, id, p, cat, g, rest);
    lemma_round_trip(v, h, id, p, cat);
    lemma_decode_progress(f, cat);
    assert(s.subrange((g.len() + f.len()) as int, s.len() as int) =~= rest);
}

/// Resynchronisation: after marker-free garbage, two back-to-back frames
/// come out of a stream buffer first and second, with no error in between.
pub proof fn lemma_stream_resync(
    g: Seq<u8>,
    va: MavlinkVersion, ha: MavHeader, ida: u32, pa: Seq<u8>,
    vb: MavlinkVersion, hb: MavHeader, idb: u32, pb: Seq<u8>,
    cat: Seq<MessageInfo>,
)
    requires
        marker_free(g),
        encode_result(va, ha, ida, pa, cat) is Ok,
        encode_result(vb, hb, idb, pb, cat) is Ok,
    ensures
        stream_next(g + encoded(va, ha, ida, pa, cat) + encoded(vb, hb, idb, pb, cat), cat)
            == (encoded(vb, hb, idb, pb, cat), Some((ha, ida, pa))),
        stream_next(encoded(vb, hb, idb, pb, cat), cat) == (Seq::<u8>::empty(), Some((hb, idb, pb))),
{
    let fb = encoded(vb, hb, idb, pb, cat);
    lemma_first_after_garbage(va, ha, ida, pa, cat, g, fb);
    lemma_first_after_garbage(vb, hb, idb, pb, cat, Seq::empty(), Seq::empty());
    assert(Seq::<u8>::empty() + fb + Seq::<u8>::empty() =~= fb);
}

/// Resynchronisation within a datagram: after marker-free garbage, two
/// back-to-back frames come out first and second.
pub proof fn lemma_datagram_resync(
    g: Seq<u8>,
    va: MavlinkVersion, ha: MavHeader, ida: u32, pa: Seq<u8>,
    vb: MavlinkVersion, hb: MavHeader, idb: u32, pb: Seq<u8>,
    cat: Seq<MessageInfo>,
)
    requires
        marker_free(g),
        encode_result(va, ha, ida, pa, cat) is Ok,
        encode_result(vb, hb, idb, pb, cat) is Ok,
    ensures
        datagram_next(g + encoded(va, ha, ida, pa, cat) + encoded(vb, hb, idb, pb, cat), cat)
            == (encoded(vb, hb, idb, pb, cat), Some((ha, ida, pa))),
        datagram_next(encoded(vb, hb, idb, pb, cat), cat) == (Seq::<u8>::empty(), Some((hb, idb, pb))),
{
    let fb = encoded(vb, hb, idb, pb, cat);
    lemma_first_after_garbage(va, ha, ida, pa, cat, g, fb);
    lemma_first_after_garbage(vb, hb, idb, pb, cat, Seq::empty(), Seq::empty());
    assert(Seq::<u8>::empty() + fb + Seq::<u8>::empty() =~= fb);
}

/// One datagram that carries two frames back to back yields both, the second
/// from what the first left pending, without another datagram being read.
pub proof fn lemma_datagram_two_frames(
    va: MavlinkVersion, ha: MavHeader, ida: u32, pa: Seq<u8>,
    vb: MavlinkVersion, hb: MavHeader, idb: u32, pb: Seq<u8>,
    cat: Seq<MessageInfo>,
)
    requires
        encode_result(va, ha, ida, pa, cat) is Ok,
        encode_result(vb, hb, idb, pb, cat) is Ok,
    ensures
        datagram_next(encoded(va, ha, ida, pa, cat) + encoded(vb, hb, idb, pb, cat), cat)
            == (encoded(vb, hb, idb, pb, cat), Some((ha, ida, pa))),
        datagram_next(encoded(vb, hb, idb, pb, cat), cat) == (Seq::<u8>::empty(), Some((hb, idb, pb))),
{
    let fa = encoded(va, ha, ida, pa, cat);
    let fb = encoded(vb, hb, idb, pb, cat);
    lemma_datagram_resync(Seq::empty(), va, ha, ida, pa, vb, hb, idb, pb, cat);
    assert(Seq::<u8>::empty() + fa + fb =~= fa + fb);
}

/// A frame that arrives on a stream in two parts: after marker-free garbage
/// and the first part, nothing comes out and the first part stays pending;
/// once the rest has arrived, the frame comes out whole.
pub proof fn lemma_stream_split_frame(
    g: Seq<u8>,
    v: MavlinkVersion,
    h: MavHeader,
    id: u32,
    p: Seq<u8>,
    cat: Seq<MessageInfo>,
    k: int,
)
    requires
        marker_free(g),
        encode_result(v, h, id, p, cat) is Ok,
        0 < k < encoded(v, h, id, p, cat).len(),
    ensures
        stream_next(g + encoded(v, h, id, p, cat).subrange(0, k), cat)
            == (encoded(v, h, id, p, cat).subrange(0, k), None::<FrameSpec>),
        stream_next(
            encoded(v, h, id, p, cat).subrange(0, k)
                + encoded(v, h, id, p, cat).subrange(k, encoded(v, h, id, p, cat).len() as int),
            cat,
        ) == (Seq::<u8>::empty(), Some((h, id, p))),
{
    let f = encoded(v, h, id, p, cat);
    let f1 = f.subrange(0, k);
    let s = g + f1;
    let extra = crc_extra_in(cat, id)->Some_0;
    lemma_encoded_fields(v, h, id, p, extra, Seq::empty());
    assert(f + Seq::<u8>::empty() =~= f);
    assert forall|j: int| 0 <= j < g.len() implies !is_marker(#[trigger] s[j]) by {
        assert(s[j] == g[j]);
    }
    assert(s[g.len() as int] == f[0]);
    lemma_skip_len(s, g.len() as int);
    let t = s.subrange(g.len() as int, s.len() as int);
    assert(t =~= f1);
    if t.len() >= header_len_of(t[0]) {
        assert(t[0] == f[0] && t[1] == f[1] && t[2] == f[2]);
        assert(frame_len_of(t) == frame_len_of(f));
    }
    assert(decode_at(t, cat) == Err::<FrameSpec, _>(CodecError::Incomplete));
    assert(s.subrange(g.len() as int, s.len() as int) =~= f1);
    assert(f1 + f.subrange(k, f.len() as int) =~= f);
    lemma_first_after_garbage(v, h, id, p, cat, Seq::empty(), Seq::empty());
    assert(Seq::<u8>::empty() + f + Seq::<u8>::empty() =~= f);
}

/// A frame with one payload byte changed is dropped whole and surfaces no
/// frame, from a datagram and from a stream, where no marker byte follows
/// its own marker.
pub proof fn lemma_corrupted_frame_dropped(
    v: MavlinkVersion,
    h: MavHeader,
    id: u32,
    p: Seq<u8>,
    cat: Seq<MessageInfo>,
    i: int,
    b: u8,
)
    requires
        encode_result(v, h, id, p, cat) is Ok,
        0 <= i < p.len(),
        p[i] != b,
        marker_free(encoded(v, h, id, p, cat).update(version_header_len(v) + i, b).drop_first()),
    ensures
        datagram_next(encoded(v, h, id, p, cat).update(version_header_len(v) + i, b), cat)
            == (Seq::<u8>::empty(), None::<FrameSpec>),
        stream_next(encoded(v, h, id, p, cat).update(version_header_len(v) + i, b), cat)
            == (Seq::<u8>::empty(), None::<FrameSpec>),
{
    let s = encoded(v, h, id, p, cat).update(version_header_len(v) + i, b);
    lemma_payload_change_detected(v, h, id, p, cat, i, b);
    let t = s.subrange(1, s.len() as int);
    assert(t =~= s.drop_first());
    lemma_skip_len(t, t.len() as int);
    let e = t.subrange(t.len() as int, t.len() as int);
    assert(e =~= Seq::<u8>::empty());
    assert(datagram_next(e, cat) == (e, None::<FrameSpec>));
    assert(stream_next(e, cat) == (e, None::<FrameSpec>));
    assert(datagram_next(t, cat) == datagram_next(e, cat));
    assert(stream_next(t, cat) == stream_next(e, cat));
}

} // verus!
