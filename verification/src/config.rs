//! The limits and the identity that a session works under.

use vstd::prelude::*;

verus! {

/// The largest frame length that a limit may be set to: 1 GiB.
pub const FRAME_LIMIT_CEILING: u32 = 0x4000_0000;

/// The values that the components work under, gathered in one place so that
/// they can be changed together.
#[derive(Debug, Clone, Copy)]
pub struct Config {
    /// The identifier that this client announces to trackers and peers.
    pub peer_id: [u8; 20],
    /// The size of the blocks in which a piece is requested; the last block of
    /// a piece may be shorter.
    pub block_size: u32,
    /// The largest length that an incoming frame may declare.
    pub max_inbound_frame: u32,
    /// The largest length, tag and payload together, of an outgoing frame.
    pub max_outbound_frame: u32,
}

impl Config {
    /// Whether the values can be worked with: blocks are not empty, and the
    /// frame limits are at most `FRAME_LIMIT_CEILING`.
    pub open spec fn wf(&self) -> bool {
        &&& self.block_size > 0
        &&& self.max_inbound_frame <= FRAME_LIMIT_CEILING
        &&& self.max_outbound_frame <= FRAME_LIMIT_CEILING
    }

    /// The values of the wire protocol: blocks of 16 KiB, incoming frames of
    /// at most 64 KiB, outgoing frames of at most 8 MiB.
    pub fn standard() -> (config: Config)
        ensures
            config.wf(),
            config.block_size == 16384,
            config.max_inbound_frame == 65536,
            config.max_outbound_frame == 8388608,
            config.peer_id@ == seq![
                48u8, 48u8, 49u8, 49u8, 50u8, 50u8, 51u8, 51u8, 52u8, 52u8,
                53u8, 53u8, 54u8, 54u8, 55u8, 55u8, 56u8, 56u8, 57u8, 57u8,
            ],
    {
        let peer_id: [u8; 20] = [
            48, 48, 49, 49, 50, 50, 51, 51, 52, 52, 53, 53, 54, 54, 55, 55, 56, 56, 57, 57,
        ];
        assert(peer_id@ =~= seq![
            48u8, 48u8, 49u8, 49u8, 50u8, 50u8, 51u8, 51u8, 52u8, 52u8,
            53u8, 53u8, 54u8, 54u8, 55u8, 55u8, 56u8, 56u8, 57u8, 57u8,
        ]);
        Config {
            peer_id,
            block_size: 16384,
            max_inbound_frame: 65536,
            max_outbound_frame: 8388608,
        }
    }

    /// Whether the values can be worked with.
    pub fn is_valid(&self) -> (valid: bool)
        ensures
            valid == self.wf(),
    {
        self.block_size > 0 && self.max_inbound_frame <= FRAME_LIMIT_CEILING
            && self.max_outbound_frame <= FRAME_LIMIT_CEILING
    }
}

} // verus!
