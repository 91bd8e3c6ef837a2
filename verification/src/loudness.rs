//! The clock of the loudness meter: when its hops and blocks end.

use vstd::arithmetic::div_mod;
use vstd::prelude::*;

use crate::real32::Real32;

verus! {

/// Hops in one block.
pub const HOPS_IN_BLOCK: u64 = 4;

/// The bit pattern of the lowest target, -23 LUFS.
pub const TARGET_MIN_LUFS: u32 = 0xc1b8_0000;

/// The bit pattern of the highest target, -6 LUFS.
pub const TARGET_MAX_LUFS: u32 = 0xc0c0_0000;

/// Whether a loudness target lies between the broadcast floor and the hot
/// ceiling.
pub fn is_target(lufs: Real32) -> (r: bool)
    ensures
        r == lufs.within(0xc1b8_0000, 0xc0c0_0000),
{
    lufs.is_within(TARGET_MIN_LUFS, TARGET_MAX_LUFS)
}

/// What a frame completes.
#[derive(Debug, Clone, Copy, PartialEq, Eq, Structural)]
pub enum Mark {
    /// Nothing.
    Within,
    /// A hop, with too few hops before it for a block.
    Hop,
    /// A hop and a block: the last four hops.
    Block,
}

/// What the frame with this number completes, counted from 1.
pub open spec fn mark_at(hop_frames: nat, frame: nat) -> Mark {
    if frame % hop_frames != 0 {
        Mark::Within
    } else if frame / hop_frames < 4 {
        Mark::Hop
    } else {
        Mark::Block
    }
}

/// Counts frames into hops, and hops into blocks that overlap by three hops.
#[derive(Debug)]
pub struct BlockClock {
    hop_frames: u64,
    frames_in_hop: u64,
    hops: u64,
}

impl BlockClock {
    /// A hop has frames, and the current one is not complete.
    pub closed spec fn wf(self) -> bool {
        self.frames_in_hop < self.hop_frames
    }

    /// Frames in one hop.
    pub closed spec fn hop(self) -> nat {
        self.hop_frames as nat
    }

    /// The frames counted so far.
    pub closed spec fn frames(self) -> nat {
        (self.hops * self.hop_frames + self.frames_in_hop) as nat
    }

    /// A clock for hops of so many frames, at least one.
    pub fn new(hop_frames: u64) -> (r: BlockClock)
        ensures
            r.wf(),
            r.hop() == (if hop_frames == 0 {
                1
            } else {
                hop_frames as nat
            }),
            r.frames() == 0,
    {
        let hop_frames: u64 = if hop_frames == 0 {
            1
        } else {
            hop_frames
        };
        proof {
            assert(0 * hop_frames == 0) by (nonlinear_arith);
        }
        BlockClock { hop_frames, frames_in_hop: 0, hops: 0 }
    }

    /// Counts one frame.
    pub fn tick(&mut self) -> (r: Mark)
        requires
            old(self).wf(),
            old(self).frames() < u64::MAX,
        ensures
            final(self).wf(),
            final(self).hop() == old(self).hop(),
            final(self).frames() == old(self).frames() + 1,
            r == mark_at(old(self).hop(), final(self).frames()),
    {
        let ghost hop = self.hop_frames as int;
        let ghost hops = self.hops as int;
        proof {
            assert(hops <= hops * hop) by (nonlinear_arith)
                requires
                    hop >= 1,
                    hops >= 0,
            ;
        }
        self.frames_in_hop = self.frames_in_hop + 1;
        if self.frames_in_hop < self.hop_frames {
            proof {
                div_mod::lemma_fundamental_div_mod_converse(
                    hops * hop + self.frames_in_hop,
                    hop,
                    hops,
                    self.frames_in_hop as int,
                );
            }
            return Mark::Within;
        }
        self.frames_in_hop = 0;
        self.hops = self.hops + 1;
        proof {
            assert((hops + 1) * hop == hops * hop + hop) by (nonlinear_arith);
            div_mod::lemma_fundamental_div_mod_converse((hops + 1) * hop, hop, hops + 1, 0);
        }
        if self.hops < HOPS_IN_BLOCK {
            Mark::Hop
        } else {
            Mark::Block
        }
    }
}

/// A clip shorter than one block completes none, so it is never measured.
pub proof fn short_clips_have_no_block(hop_frames: nat, frame: nat)
    requires
        hop_frames > 0,
        frame < 4 * hop_frames,
    ensures
        mark_at(hop_frames, frame) != Mark::Block,
{
    assert(frame / hop_frames < 4) by (nonlinear_arith)
        requires
            hop_frames > 0,
            frame < 4 * hop_frames,
    ;
}

/// From the fourth hop on, every hop completes a block.
pub proof fn blocks_follow_every_hop(hop_frames: nat, hops: nat)
    requires
        hop_frames > 0,
        hops >= 4,
    ensures
        mark_at(hop_frames, hops * hop_frames) == Mark::Block,
{
    div_mod::lemma_fundamental_div_mod_converse(
        (hops * hop_frames) as int,
        hop_frames as int,
        hops as int,
        0,
    );
}

/// Every fourth part of a block is a hop: the frame that completes one is marked,
/// and no other. From the fourth hop on it completes a block of four hops as
/// well, so that blocks overlap by three quarters.
pub proof fn marks_come_with_every_hop(hop_frames: nat, hops: nat, more: nat)
    requires
        hop_frames > 0,
        more < hop_frames,
    ensures
        more > 0 ==> mark_at(hop_frames, hops * hop_frames + more) == Mark::Within,
        hops < 4 ==> mark_at(hop_frames, hops * hop_frames) == Mark::Hop,
        hops >= 4 ==> mark_at(hop_frames, hops * hop_frames) == Mark::Block,
{
    div_mod::lemma_fundamental_div_mod_converse(
        hops * hop_frames + more as int,
        hop_frames as int,
        hops as int,
        more as int,
    );
    div_mod::lemma_fundamental_div_mod_converse(
        (hops * hop_frames) as int,
        hop_frames as int,
        hops as int,
        0,
    );
}

} // verus!
