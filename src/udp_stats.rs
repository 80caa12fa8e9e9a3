//! Emitter accounting: what a send attempt means for the caller and the counters.

use vstd::prelude::*;

verus! {

/// How a non-blocking send ended.
#[derive(Debug, Clone, Copy, PartialEq, Eq, Structural)]
pub enum SendResult {
    /// The socket took this many bytes.
    Sent(usize),
    /// The socket buffer was full.
    WouldBlock,
    /// Any other error.
    Failed,
}

/// Totals of datagrams and bytes handed to the socket.
#[derive(Debug, Clone, Copy, PartialEq, Eq, Structural)]
pub struct UdpStats {
    pub packets_sent: u64,
    pub bytes_sent: u64,
}

pub open spec fn saturating(a: u64, b: int) -> u64 {
    if a + b > u64::MAX {
        u64::MAX
    } else {
        (a + b) as u64
    }
}

impl UdpStats {
    pub fn new() -> (r: Self)
        ensures
            r.packets_sent == 0,
            r.bytes_sent == 0,
    {
        UdpStats { packets_sent: 0, bytes_sent: 0 }
    }

    /// Accounts for a send: a datagram the socket took counts, whatever its length; a
    /// full buffer drops the datagram silently; both report success. Other errors
    /// report failure. Totals never decrease.
    pub fn record(&mut self, result: SendResult) -> (ok: bool)
        ensures
            ok == !(result is Failed),
            match result {
                SendResult::Sent(n) => final(self).packets_sent == saturating(old(self).packets_sent, 1)
                    && final(self).bytes_sent == saturating(old(self).bytes_sent, n as int),
                _ => *final(self) == *old(self),
            },
            final(self).packets_sent >= old(self).packets_sent,
            final(self).bytes_sent >= old(self).bytes_sent,
    {
        match result {
            SendResult::Sent(n) => {
                self.packets_sent = if self.packets_sent == u64::MAX { u64::MAX } else { self.packets_sent + 1 };
                let n64 = n as u64;
                self.bytes_sent = if self.bytes_sent > u64::MAX - n64 { u64::MAX } else { self.bytes_sent + n64 };
                true
            },
            SendResult::WouldBlock => true,
            SendResult::Failed => false,
        }
    }

    /// Both totals back to zero.
    pub fn reset(&mut self)
        ensures
            final(self).packets_sent == 0,
            final(self).bytes_sent == 0,
    {
        self.packets_sent = 0;
        self.bytes_sent = 0;
    }
}

} // verus!
