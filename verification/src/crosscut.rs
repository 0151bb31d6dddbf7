//! Well-known chain parameters and the slot arithmetic derived from them:
//! slot to wallclock, and slot to epoch.

use vstd::prelude::*;

verus! {

/// The parameters of a well-known chain that the slot arithmetic needs.
#[derive(Clone, Copy, PartialEq, Eq, Structural, Debug)]
pub struct ChainWellKnownInfo {
    pub magic: u64,
    pub byron_epoch_length: u32,
    pub byron_slot_length: u32,
    pub byron_known_slot: u64,
    pub byron_known_time: u64,
    pub shelley_epoch_length: u32,
    pub shelley_slot_length: u32,
    pub shelley_known_slot: u64,
    pub shelley_known_time: u64,
}

impl ChainWellKnownInfo {
    /// Epoch and slot lengths are positive, and the eras are ordered.
    pub open spec fn wf(&self) -> bool {
        &&& self.byron_epoch_length >= 1
        &&& self.byron_slot_length >= 1
        &&& self.shelley_epoch_length >= 1
        &&& self.shelley_slot_length >= 1
        &&& self.byron_known_slot <= self.shelley_known_slot
    }

    /// The parameters of the chain with the given network magic are not
    /// built here; a caller supplies them.
    pub fn new(
        magic: u64,
        byron_epoch_length: u32,
        byron_slot_length: u32,
        byron_known_slot: u64,
        byron_known_time: u64,
        shelley_epoch_length: u32,
        shelley_slot_length: u32,
        shelley_known_slot: u64,
        shelley_known_time: u64,
    ) -> (r: ChainWellKnownInfo)
        ensures
            r == (ChainWellKnownInfo {
                magic,
                byron_epoch_length,
                byron_slot_length,
                byron_known_slot,
                byron_known_time,
                shelley_epoch_length,
                shelley_slot_length,
                shelley_known_slot,
                shelley_known_time,
            }),
    {
        ChainWellKnownInfo {
            magic,
            byron_epoch_length,
            byron_slot_length,
            byron_known_slot,
            byron_known_time,
            shelley_epoch_length,
            shelley_slot_length,
            shelley_known_slot,
            shelley_known_time,
        }
    }

    /// Decide well-formedness, so a caller can refuse bad parameters
    /// before the slot arithmetic demands them.
    pub fn check_wf(&self) -> (r: bool)
        ensures
            r == self.wf(),
    {
        self.byron_epoch_length >= 1 && self.byron_slot_length >= 1
            && self.shelley_epoch_length >= 1 && self.shelley_slot_length >= 1
            && self.byron_known_slot <= self.shelley_known_slot
    }
}

/// The wallclock second of a slot, as unbounded arithmetic: the known time
/// of the slot's era plus the elapsed slots times the era's slot length.
pub open spec fn wallclock_of(chain: ChainWellKnownInfo, slot: u64) -> int {
    if slot >= chain.shelley_known_slot {
        chain.shelley_known_time + (slot - chain.shelley_known_slot)
            * chain.shelley_slot_length
    } else if slot >= chain.byron_known_slot {
        chain.byron_known_time + (slot - chain.byron_known_slot) * chain.byron_slot_length
    } else {
        chain.byron_known_time as int
    }
}

/// The epoch a slot falls in: plain division inside Byron, and the Byron
/// boundary epoch plus elapsed Shelley epochs afterwards.
pub open spec fn epoch_of(chain: ChainWellKnownInfo, slot: u64) -> int
    recommends
        chain.wf(),
{
    if slot >= chain.shelley_known_slot {
        chain.shelley_known_slot as int / chain.byron_epoch_length as int + (
        slot - chain.shelley_known_slot) as int / chain.shelley_epoch_length as int
    } else {
        slot as int / chain.byron_epoch_length as int
    }
}

/// Maps a slot to wallclock seconds; a result beyond the range of `u64`
/// saturates at its maximum.
pub struct NaiveProvider {
    pub chain: ChainWellKnownInfo,
}

impl NaiveProvider {
    pub fn new(chain: ChainWellKnownInfo) -> (r: NaiveProvider)
        ensures
            r.chain == chain,
    {
        NaiveProvider { chain }
    }

    /// The wallclock second of a slot.
    pub fn slot_to_wallclock(&self, slot: u64) -> (r: u64)
        ensures
            wallclock_of(self.chain, slot) <= u64::MAX ==> r == wallclock_of(self.chain, slot),
            wallclock_of(self.chain, slot) > u64::MAX ==> r == u64::MAX,
    {
        let c = &self.chain;
        if slot >= c.shelley_known_slot {
            let elapsed = slot - c.shelley_known_slot;
            match elapsed.checked_mul(c.shelley_slot_length as u64) {
                Some(ticks) => match c.shelley_known_time.checked_add(ticks) {
                    Some(t) => t,
                    None => u64::MAX,
                },
                None => {
                    proof {
                        assert(elapsed * c.shelley_slot_length > u64::MAX);
                        assert(wallclock_of(self.chain, slot) > u64::MAX) by {
                            assert(c.shelley_known_time >= 0);
                        }
                    }
                    u64::MAX
                },
            }
        } else if slot >= c.byron_known_slot {
            let elapsed = slot - c.byron_known_slot;
            match elapsed.checked_mul(c.byron_slot_length as u64) {
                Some(ticks) => match c.byron_known_time.checked_add(ticks) {
                    Some(t) => t,
                    None => u64::MAX,
                },
                None => {
                    proof {
                        assert(elapsed * c.byron_slot_length > u64::MAX);
                        assert(wallclock_of(self.chain, slot) > u64::MAX) by {
                            assert(c.byron_known_time >= 0);
                        }
                    }
                    u64::MAX
                },
            }
        } else {
            c.byron_known_time
        }
    }
}

/// The epoch of a block's slot.
pub fn block_epoch(chain: &ChainWellKnownInfo, slot: u64) -> (r: u64)
    requires
        chain.wf(),
    ensures
        r == epoch_of(*chain, slot),
{
    if slot >= chain.shelley_known_slot {
        chain.shelley_known_slot / (chain.byron_epoch_length as u64) + (
        slot - chain.shelley_known_slot) / (chain.shelley_epoch_length as u64)
    } else {
        slot / (chain.byron_epoch_length as u64)
    }
}

} // verus!
