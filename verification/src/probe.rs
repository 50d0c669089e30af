//! Probe bookkeeping: the kinds of response a probe can end in, the record
//! kept for a probe in flight, and the response handed to the session once
//! a probe is answered or times out.

use vstd::prelude::*;

use crate::addr::IpAddress;

verus! {

/// The kinds of ICMP response the engine cares about.
#[derive(Debug, Clone, Copy, PartialEq, Eq, Structural)]
pub enum IcmpResponseType {
    EchoReply,
    TimeExceeded,
    DestinationUnreachable,
    Timeout,
}

/// Information about a probe response, produced once per answered or
/// timed-out probe and consumed exactly once by the session.
#[derive(Debug, Clone, Copy, PartialEq, Eq, Structural)]
pub struct ProbeResponse {
    pub hop: usize,
    pub seq: u16,
    pub source_addr: IpAddress,
    pub icmp_type: IcmpResponseType,
    /// Measured round-trip time, in nanoseconds.
    pub rtt: u64,
    /// When the probe was sent, in nanoseconds of the session clock.
    pub send_time: u64,
}

/// A probe that has been sent but not yet answered.
#[derive(Debug, Clone, Copy, PartialEq, Eq, Structural)]
pub struct ProbeInfo {
    pub hop: usize,
    /// When the probe was sent, in nanoseconds of the session clock.
    pub sent_at: u64,
    /// How long to wait for an answer, in nanoseconds.
    pub timeout: u64,
}

impl ProbeInfo {
    /// Whether this probe's timeout has elapsed at instant `now`.
    pub fn timed_out(&self, now: u64) -> (r: bool)
        requires
            now >= self.sent_at,
        ensures
            r == (now - self.sent_at >= self.timeout),
    {
        now - self.sent_at >= self.timeout
    }
}

} // verus!
