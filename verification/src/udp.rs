//! Counters and limits of the UDP transport.

use crate::protocol::MAX_PAYLOAD_BYTES;
use vstd::prelude::*;

verus! {

/// Room for the largest datagram: a full payload and its header.
pub const RECEIVE_BUFFER_BYTES: usize = MAX_PAYLOAD_BYTES + 64;

/// Per-connection counters exposed for diagnostics. They wrap around.
#[derive(Debug, Clone, Copy, PartialEq, Eq, Structural)]
pub struct UdpStats {
    packets_sent: u64,
    packets_received: u64,
    bytes_sent: u64,
    bytes_received: u64,
}

/// The counters of one transport.
pub struct UdpCounts {
    pub packets_sent: u64,
    pub packets_received: u64,
    pub bytes_sent: u64,
    pub bytes_received: u64,
}

impl View for UdpStats {
    type V = UdpCounts;

    closed spec fn view(&self) -> UdpCounts {
        UdpCounts {
            packets_sent: self.packets_sent,
            packets_received: self.packets_received,
            bytes_sent: self.bytes_sent,
            bytes_received: self.bytes_received,
        }
    }
}

impl Default for UdpStats {
    fn default() -> (stats: Self)
        ensures
            stats@ == (UdpCounts {
                packets_sent: 0,
                packets_received: 0,
                bytes_sent: 0,
                bytes_received: 0,
            }),
    {
        UdpStats { packets_sent: 0, packets_received: 0, bytes_sent: 0, bytes_received: 0 }
    }
}

impl UdpStats {
    pub fn packets_sent(&self) -> (n: u64)
        ensures
            n == self@.packets_sent,
    {
        self.packets_sent
    }

    pub fn packets_received(&self) -> (n: u64)
        ensures
            n == self@.packets_received,
    {
        self.packets_received
    }

    pub fn bytes_sent(&self) -> (n: u64)
        ensures
            n == self@.bytes_sent,
    {
        self.bytes_sent
    }

    pub fn bytes_received(&self) -> (n: u64)
        ensures
            n == self@.bytes_received,
    {
        self.bytes_received
    }

    /// Count one datagram of `n` bytes that went out.
    pub fn record_sent(&mut self, n: usize)
        ensures
            final(self)@ == (UdpCounts {
                packets_sent: old(self)@.packets_sent.wrapping_add(1),
                bytes_sent: old(self)@.bytes_sent.wrapping_add(n as u64),
                ..old(self)@
            }),
    {
        self.packets_sent = self.packets_sent.wrapping_add(1);
        self.bytes_sent = self.bytes_sent.wrapping_add(n as u64);
    }

    /// Count one datagram of `n` bytes that came in.
    pub fn record_received(&mut self, n: usize)
        ensures
            final(self)@ == (UdpCounts {
                packets_received: old(self)@.packets_received.wrapping_add(1),
                bytes_received: old(self)@.bytes_received.wrapping_add(n as u64),
                ..old(self)@
            }),
    {
        self.packets_received = self.packets_received.wrapping_add(1);
        self.bytes_received = self.bytes_received.wrapping_add(n as u64);
    }
}

} // verus!
