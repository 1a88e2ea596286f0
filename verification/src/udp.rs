//! What the UDP service sends back for a datagram that it receives: a datagram
//! that fits in the MTU goes back whole; a larger one goes back as two
//! datagrams, its payload first and then its 32-byte header.
use vstd::prelude::*;

verus! {

/// The port that the UDP service listens on.
pub const UDP_PORT: u16 = 8080;

/// The largest datagram that goes back whole.
pub const MTU: usize = 1500;

/// The size of the header that a larger datagram is split off at.
pub const HEADER_SIZE: usize = 32;

/// The byte ranges `[start, end)` of a received datagram of `len` bytes that
/// are sent back, each as a datagram of its own, in the order they are sent.
pub open spec fn reply_ranges(len: usize) -> Seq<(usize, usize)> {
    if len == 0 {
        Seq::empty()
    } else if len <= MTU {
        seq![(0usize, len)]
    } else {
        seq![(HEADER_SIZE, len), (0usize, HEADER_SIZE)]
    }
}

/// The datagrams sent back for a received datagram of `len` bytes, as byte
/// ranges of it in the order they are sent.
pub fn plan_reply(len: usize) -> (sends: Vec<(usize, usize)>)
    ensures
        sends@ == reply_ranges(len),
{
    let mut sends = Vec::new();
    if len > 0 {
        if len <= MTU {
            sends.push((0, len));
        } else {
            sends.push((HEADER_SIZE, len));
            sends.push((0, HEADER_SIZE));
        }
    }
    assert(sends@ =~= reply_ranges(len));
    sends
}

/// The bytes of `datagram` that `ranges` cover, put together from the last
/// range sent to the first.
pub open spec fn reassemble(datagram: Seq<u8>, ranges: Seq<(usize, usize)>) -> Seq<u8>
    decreases ranges.len(),
{
    if ranges.len() == 0 {
        Seq::empty()
    } else {
        let last = ranges.last();
        datagram.subrange(last.0 as int, last.1 as int) + reassemble(datagram, ranges.drop_last())
    }
}

/// What is sent back for a datagram is all of it and nothing else: every range
/// lies within the datagram, none is empty, and the ranges put together, the
/// last sent first, give back the datagram.
pub proof fn lemma_reply_reassembles(datagram: Seq<u8>)
    requires
        datagram.len() <= usize::MAX,
    ensures
        ({
            let ranges = reply_ranges(datagram.len() as usize);
            &&& forall|i: int|
                0 <= i < ranges.len() ==> #[trigger] ranges[i].0 < ranges[i].1 <= datagram.len()
            &&& reassemble(datagram, ranges) == datagram
        }),
{
    let len = datagram.len() as usize;
    let ranges = reply_ranges(len);
    let none = Seq::<(usize, usize)>::empty();
    assert(reassemble(datagram, none) == Seq::<u8>::empty());
    if len == 0 {
        assert(reassemble(datagram, ranges) =~= datagram);
    } else if len <= MTU {
        assert(ranges.drop_last() =~= none);
        assert(ranges.last() == (0usize, len));
        assert(datagram.subrange(0, len as int) =~= datagram);
        assert(reassemble(datagram, ranges) =~= datagram);
    } else {
        let first = seq![(HEADER_SIZE, len)];
        assert(ranges.drop_last() =~= first);
        assert(ranges.last() == (0usize, HEADER_SIZE));
        assert(first.drop_last() =~= none);
        assert(first.last() == (HEADER_SIZE, len));
        assert(reassemble(datagram, first) =~= datagram.subrange(HEADER_SIZE as int, len as int));
        assert(datagram.subrange(0, HEADER_SIZE as int) + datagram.subrange(
            HEADER_SIZE as int,
            len as int,
        ) =~= datagram);
    }
}

} // verus!
