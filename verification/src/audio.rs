//! Audio: encoded packets, and silence where nothing can be captured.
use std::sync::Arc;
use vstd::prelude::*;

verus! {

/// Encoded Opus audio packet.
#[derive(Debug, Clone)]
pub struct AudioPacket {
    pub data: Arc<Vec<u8>>,
    pub pts_us: u64,
    /// Duration of this packet in microseconds (normally 20 000).
    pub duration_us: u64,
}

/// How long a packet lasts, in microseconds.
pub const PACKET_US: u64 = 20_000;

/// A source of silence, for platforms without audio capture.
#[derive(Debug, Clone, Copy, PartialEq, Eq, Structural)]
pub struct SilentSource {
    /// The time of the next packet.
    pub pts_us: u64,
}

impl SilentSource {
    /// A source whose first packet is at time 0.
    pub fn new() -> (s: Self)
        ensures
            s.pts_us == 0,
    {
        SilentSource { pts_us: 0 }
    }

    /// The next packet: silence in Opus, right after the one before it.
    pub fn next_packet(&mut self) -> (packet: AudioPacket)
        requires
            old(self).pts_us + PACKET_US <= u64::MAX,
        ensures
            packet.data@ == seq![0xF8u8, 0xFFu8, 0xFEu8],
            packet.pts_us == old(self).pts_us,
            packet.duration_us == PACKET_US,
            packet.duration_us == 20_000,
            final(self).pts_us == old(self).pts_us + packet.duration_us,
    {
        let pts_us: u64 = self.pts_us;
        self.pts_us = pts_us + PACKET_US;
        let data: Vec<u8> = vec![0xF8, 0xFF, 0xFE];
        assert(data@ =~= seq![0xF8u8, 0xFFu8, 0xFEu8]);
        AudioPacket { data: Arc::new(data), pts_us, duration_us: PACKET_US }
    }
}

} // verus!
