//! Send-side state: the wrapping sequence counter and the datagram peer.
use vstd::prelude::*;
use crate::codec::{encode, encoding_matches};
use crate::frame::{encode_result, CodecError, MavHeader, MavMessage, MavlinkVersion, MessageCatalog};

verus! {

/// The header actually sent: the caller's identities under sequence `seq`.
pub open spec fn stamped(h: MavHeader, seq: u8) -> MavHeader {
    MavHeader { sequence: seq, system_id: h.system_id, component_id: h.component_id }
}

/// The sequence number `k` steps after `start`, wrapping at 256.
pub open spec fn sequence_after(start: u8, k: nat) -> u8 {
    ((start + k) % 256) as u8
}

/// The per-connection counter of outgoing sequence numbers.
pub struct Sequencer {
    next: u8,
}

impl Sequencer {
    /// The sequence number the next frame will carry.
    pub closed spec fn next(&self) -> u8 {
        self.next
    }

    /// A counter that starts at zero.
    pub fn new() -> (r: Sequencer)
        ensures
            r.next() == 0,
    {
        Sequencer { next: 0 }
    }

    /// The sequence number the next frame will carry.
    pub fn peek(&self) -> (r: u8)
        ensures
            r == self.next(),
    {
        self.next
    }

    /// Counts one sequence number as used.
    pub fn advance(&mut self)
        ensures
            final(self).next() == sequence_after(old(self).next(), 1),
    {
        self.next = self.next.wrapping_add(1);
    }

    /// Encodes `message` under the caller's identities and this counter's
    /// sequence number; the number is used up only when a frame comes out.
    pub fn frame(
        &mut self,
        version: MavlinkVersion,
        header: &MavHeader,
        message: &MavMessage,
        catalog: &MessageCatalog,
    ) -> (r: Result<Vec<u8>, CodecError>)
        ensures
            encoding_matches(
                r,
                encode_result(version, stamped(*header, old(self).next()), message.id, message.payload@, catalog.messages@),
            ),
            r is Ok ==> final(self).next() == sequence_after(old(self).next(), 1),
            r is Err ==> final(self).next() == old(self).next(),
    {
        let h = MavHeader { sequence: self.next, system_id: header.system_id, component_id: header.component_id };
        let r = encode(version, &h, message, catalog);
        if r.is_ok() {
            self.advance();
        }
        r
    }
}

/// Sequence monotonicity: the numbers stamped on consecutive frames count up
/// by one modulo 256 from the starting value, and any 256 or fewer of them
/// in a row are pairwise distinct.
pub proof fn lemma_sequence_counts_up(start: u8, n: nat)
    requires
        n <= 256,
    ensures
        sequence_after(start, 0) == start,
        forall|k: nat| #[trigger] sequence_after(start, k + 1) == sequence_after(sequence_after(start, k), 1),
        forall|i: nat, j: nat|
            i < n && j < n && i != j ==> #[trigger] sequence_after(start, i) != #[trigger] sequence_after(start, j),
{
    assert forall|k: nat| #[trigger] sequence_after(start, k + 1) == sequence_after(sequence_after(start, k), 1) by {
        assert(((start + k) % 256 + 1) % 256 == (start + k + 1) % 256) by (nonlinear_arith);
    }
    assert forall|i: nat, j: nat|
        i < n && j < n && i != j implies #[trigger] sequence_after(start, i) != #[trigger] sequence_after(start, j) by {
        if (start + i) % 256 == (start + j) % 256 {
            assert(false) by (nonlinear_arith)
                requires (start + i) % 256 == (start + j) % 256, i < n, j < n, i != j, n <= 256;
        }
    }
}

/// What a datagram send hands to the socket: nothing while no peer is known,
/// else the frame and its destination.
pub open spec fn datagram_send_result<A>(dest: Option<A>, enc: Result<Seq<u8>, CodecError>) -> Result<Option<(Seq<u8>, A)>, CodecError> {
    match dest {
        None => Ok(None),
        Some(a) => match enc {
            Ok(b) => Ok(Some((b, a))),
            Err(e) => Err(e),
        },
    }
}

pub open spec fn send_matches<A>(r: Result<Option<(Vec<u8>, A)>, CodecError>, s: Result<Option<(Seq<u8>, A)>, CodecError>) -> bool {
    match (r, s) {
        (Ok(None), Ok(None)) => true,
        (Ok(Some((b, a))), Ok(Some((sb, sa)))) => b@ == sb && a == sa,
        (Err(e), Err(se)) => e == se,
        _ => false,
    }
}

/// The write side of a datagram connection: its sequence counter and the
/// destination, fixed or learned from the latest sender.
pub struct DatagramSender<A> {
    sequencer: Sequencer,
    dest: Option<A>,
}

impl<A: Copy> DatagramSender<A> {
    pub closed spec fn dest(&self) -> Option<A> {
        self.dest
    }

    pub closed spec fn next(&self) -> u8 {
        self.sequencer.next()
    }

    /// A sender with `dest` as destination (none for a listener) and sequence zero.
    pub fn new(dest: Option<A>) -> (r: DatagramSender<A>)
        ensures
            r.dest() == dest,
            r.next() == 0,
    {
        DatagramSender { sequencer: Sequencer::new(), dest }
    }

    /// Records the sender of the latest datagram as the destination.
    pub fn learn_peer(&mut self, addr: A)
        ensures
            final(self).dest() == Some(addr),
            final(self).next() == old(self).next(),
    {
        self.dest = Some(addr);
    }

    /// Prepares one send: stamps the sequence number and, where a
    /// destination is known, encodes the frame for it.
    ///
    /// With no destination nothing is to be sent; the sequence number is
    /// still used up. With one, the number is used up when a frame comes out.
    pub fn send(
        &mut self,
        version: MavlinkVersion,
        header: &MavHeader,
        message: &MavMessage,
        catalog: &MessageCatalog,
    ) -> (r: Result<Option<(Vec<u8>, A)>, CodecError>)
        ensures
            send_matches(
                r,
                datagram_send_result(
                    old(self).dest(),
                    encode_result(version, stamped(*header, old(self).next()), message.id, message.payload@, catalog.messages@),
                ),
            ),
            final(self).dest() == old(self).dest(),
            r is Err ==> final(self).next() == old(self).next(),
            r is Ok ==> final(self).next() == sequence_after(old(self).next(), 1),
    {
        match self.dest {
            None => {
                self.sequencer.advance();
                Ok(None)
            },
            Some(a) => match self.sequencer.frame(version, header, message, catalog) {
                Ok(b) => Ok(Some((b, a))),
                Err(e) => Err(e),
            },
        }
    }
}

/// Listening peer learning: without a known peer a send hands nothing to the
/// socket, whatever the frame; once a datagram from `x` has been seen, the
/// frame goes to `x`.
pub proof fn lemma_listener_learns_peer<A>(x: A, enc: Result<Seq<u8>, CodecError>, frame: Seq<u8>)
    ensures
        datagram_send_result::<A>(None, enc) == Ok::<Option<(Seq<u8>, A)>, CodecError>(None),
        datagram_send_result(Some(x), Ok::<Seq<u8>, CodecError>(frame)) == Ok::<Option<(Seq<u8>, A)>, CodecError>(Some((frame, x))),
{
}

} // verus!
