use vstd::prelude::*;
use crate::board::Player;
use crate::location::Location;
use crate::moves::utils::or_seq;

verus! {

/// The bitboard of each of a player's sixteen slots: the one square of the
/// piece, or nothing for a captured piece.
pub struct Bitfields {
    pub bits: [u64; 16],
}

/// The bitboard of one slot.
pub open spec fn slot_bit(slot: Option<Location>) -> u64 {
    match slot {
        Some(held) => held.spec_pos(),
        None => 0,
    }
}

/// The bitboards of the sixteen slots of `player`.
pub open spec fn slot_bits(player: Player) -> Seq<u64> {
    Seq::new(16, |i: int| slot_bit(player.slots[i]))
}

/// The squares that the pieces of `player` stand on.
pub open spec fn occupancy(player: Player) -> u64 {
    or_seq(slot_bits(player))
}

impl Bitfields {
    pub fn new(player: &Player) -> (fields: Bitfields)
        ensures
            fields.bits@ == slot_bits(*player),
    {
        let mut bits: [u64; 16] = [0; 16];
        let mut i: usize = 0;
        while i < 16
            invariant
                i <= 16,
                forall|j: int| 0 <= j < i ==> #[trigger] bits[j] == slot_bit(player.slots[j]),
            decreases 16 - i,
        {
            let bit: u64 = match player.slots[i] {
                Some(held) => held.pos(),
                None => 0,
            };
            bits[i] = bit;
            i += 1;
        }
        proof {
            assert(bits@ =~= slot_bits(*player));
        }
        Bitfields { bits }
    }
}

} // verus!
