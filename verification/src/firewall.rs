//! The packet filter between the Wi-Fi interface and the network stack: the
//! hot-loaded XDP program is called on each received frame and its action
//! decides whether the frame goes on.
use vstd::prelude::*;

verus! {

/// XDP return code, the program failed.
pub const XDP_ABORTED: i32 = 0;

/// XDP return code, drop the frame.
pub const XDP_DROP: i32 = 1;

/// XDP return code, let the frame through.
pub const XDP_PASS: i32 = 2;

/// XDP return code, send the frame back out.
pub const XDP_TX: i32 = 3;

/// XDP return code, hand the frame elsewhere.
pub const XDP_REDIRECT: i32 = 4;

/// Whether a frame with the XDP return code `action` goes on to the network
/// stack: it does for `XDP_PASS`, `XDP_TX` and `XDP_REDIRECT`, and is dropped
/// for every other value.
pub fn check_packet(action: i32) -> (pass: bool)
    ensures
        pass == (action == XDP_PASS || action == XDP_TX || action == XDP_REDIRECT),
{
    action == XDP_PASS || action == XDP_TX || action == XDP_REDIRECT
}

/// The context that the XDP program is called with: the address of the first
/// byte of the frame and the address just past its last byte.
pub struct XdpContext {
    data: usize,
    data_end: usize,
}

impl View for XdpContext {
    /// The two addresses, first byte and one past the last.
    type V = (nat, nat);

    closed spec fn view(&self) -> (nat, nat) {
        (self.data as nat, self.data_end as nat)
    }
}

impl XdpContext {
    #[verifier::type_invariant]
    spec fn well_formed(self) -> bool {
        self.data <= self.data_end
    }

    /// The context of a frame of `len` bytes that starts at address `data`.
    pub fn new(data: usize, len: usize) -> (ctx: XdpContext)
        requires
            data + len <= usize::MAX,
        ensures
            ctx@ == (data as nat, (data + len) as nat),
    {
        XdpContext { data, data_end: data + len }
    }

    /// The address of the first byte of the frame.
    pub fn data(&self) -> (addr: usize)
        ensures
            addr == self@.0,
    {
        self.data
    }

    /// The address just past the last byte of the frame.
    pub fn data_end(&self) -> (addr: usize)
        ensures
            addr == self@.1,
    {
        self.data_end
    }

    /// The length of the frame in bytes.
    pub fn len(&self) -> (len: usize)
        ensures
            self@.0 <= self@.1,
            len == self@.1 - self@.0,
    {
        proof {
            use_type_invariant(self);
        }
        self.data_end - self.data
    }
}

} // verus!
