use vstd::prelude::*;
use vstd::std_specs::bits::axiom_u64_leading_zeros;
use vstd::std_specs::bits::u64_leading_zeros;

verus! {

/// A square of the 8 by 8 board, with the mark of a promoted pawn packed
/// beside it. The mark travels with the value and plays no part in `==`.
#[derive(Clone, Copy, Debug)]
pub struct Location {
    rank: u8,
    file: u8,
    promoted: bool,
}

/// The bit of square `(rank, file)` in a bitboard.
pub open spec fn square_bit(rank: u8, file: u8) -> u64 {
    1u64 << ((8 * rank + file) as u64)
}

/// The unpromoted location of square `(rank, file)`.
pub closed spec fn spec_loc(rank: u8, file: u8) -> Location {
    Location { rank, file, promoted: false }
}

/// The unpromoted location of the square with number `square`.
pub open spec fn spec_at(square: int) -> Location {
    spec_loc((square / 8) as u8, (square % 8) as u8)
}

/// `spec_loc` builds the location that its arguments name.
pub proof fn lemma_spec_loc(rank: u8, file: u8)
    ensures
        spec_loc(rank, file).spec_rank() == rank,
        spec_loc(rank, file).spec_file() == file,
        !spec_loc(rank, file).spec_is_queen(),
{
}

/// The number of the highest square set in `bit`; 0 when none is.
pub open spec fn top_square(bit: u64) -> int {
    if bit == 0 {
        0
    } else {
        63 - u64_leading_zeros(bit)
    }
}

impl Location {
    #[verifier::type_invariant]
    spec fn on_board(self) -> bool {
        self.rank < 8 && self.file < 8
    }

    pub closed spec fn spec_rank(self) -> u8 {
        self.rank
    }

    pub closed spec fn spec_file(self) -> u8 {
        self.file
    }

    pub closed spec fn spec_is_queen(self) -> bool {
        self.promoted
    }

    /// Whether both coordinates lie on the board. Every `Location` that
    /// executable code holds does.
    pub open spec fn wf(self) -> bool {
        self.spec_rank() < 8 && self.spec_file() < 8
    }

    /// The square as a number from 0 to 63: `rank * 8 + file`.
    pub open spec fn square(self) -> int {
        self.spec_rank() * 8 + self.spec_file()
    }

    pub open spec fn spec_pos(self) -> u64 {
        square_bit(self.spec_rank(), self.spec_file())
    }

    /// Whether two locations name the same square, whatever their marks.
    pub open spec fn same_square(self, other: Location) -> bool {
        self.spec_rank() == other.spec_rank() && self.spec_file() == other.spec_file()
    }

    /// The location on the square of `to` with the mark of `self`.
    pub closed spec fn spec_moved_to(self, to: Location) -> Location {
        Location { rank: to.rank, file: to.file, promoted: self.promoted }
    }

    /// The location on the same square with the mark set.
    pub closed spec fn spec_promoted(self) -> Location {
        Location { rank: self.rank, file: self.file, promoted: true }
    }

    /// `spec_moved_to` takes the square and keeps the mark; `spec_promoted`
    /// keeps the square and sets the mark.
    pub proof fn lemma_moved(self, to: Location)
        ensures
            self.spec_moved_to(to).same_square(to),
            self.spec_moved_to(to).spec_is_queen() == self.spec_is_queen(),
            self.spec_promoted().same_square(self),
            self.spec_promoted().spec_is_queen(),
            to.wf() ==> self.spec_moved_to(to).wf(),
            self.wf() ==> self.spec_promoted().wf(),
    {
    }

    /// The location as one number from 1 to 128: the square's number and 1,
    /// and 64 more for a promoted pawn.
    pub closed spec fn spec_code(self) -> int {
        1 + self.rank * 8 + self.file + if self.promoted {
            64int
        } else {
            0int
        }
    }

    /// The code is a number from 1 to 128, and two locations on the board
    /// with one code are one location.
    pub proof fn lemma_code(self, other: Location)
        requires
            self.wf(),
            other.wf(),
        ensures
            1 <= self.spec_code() <= 128,
            self.spec_code() == other.spec_code() ==> self == other,
    {
    }

    /// Moving to a square is the same whatever the mark of the location that
    /// names the square.
    pub proof fn lemma_moved_to_square(self, a: Location, b: Location)
        requires
            a.same_square(b),
        ensures
            self.spec_moved_to(a) == self.spec_moved_to(b),
    {
    }

    #[verifier::when_used_as_spec(spec_rank)]
    pub fn rank(self) -> (rank: u8)
        ensures
            rank == self.spec_rank(),
            rank < 8,
    {
        proof {
            use_type_invariant(&self);
        }
        self.rank
    }

    #[verifier::when_used_as_spec(spec_file)]
    pub fn file(self) -> (file: u8)
        ensures
            file == self.spec_file(),
            file < 8,
    {
        proof {
            use_type_invariant(&self);
        }
        self.file
    }

    /// The bitboard that holds this square alone.
    #[verifier::when_used_as_spec(spec_pos)]
    pub fn pos(self) -> (bit: u64)
        ensures
            bit == self.spec_pos(),
            self.wf(),
    {
        proof {
            use_type_invariant(&self);
        }
        let shift: u8 = self.rank * 8 + self.file;
        1u64 << shift
    }

    /// The square of the highest bit set in `bit`, unpromoted; square (0, 0)
    /// when no bit is set.
    pub fn from_pos(bit: u64) -> (loc: Location)
        ensures
            loc == spec_at(top_square(bit)),
            loc.square() == top_square(bit),
            !loc.spec_is_queen(),
            loc.wf(),
            bit != 0 ==> bit >> (loc.square() as u64) == 1,
    {
        if bit == 0 {
            return loc(0, 0);
        }
        let zeros: u32 = bit.leading_zeros();
        proof {
            axiom_u64_leading_zeros(bit);
        }
        let log: u32 = 63 - zeros;
        let rank: u32 = log / 8;
        let file: u32 = log % 8;
        let found = loc(rank as u8, file as u8);
        proof {
            let l: u64 = log as u64;
            assert(l == found.square());
            assert(u64_leading_zeros(bit) == zeros);
            let z: u64 = zeros as u64;
            assert(bit >> l == 1) by (bit_vector)
                requires
                    z < 64,
                    l == 63 - z,
                    bit >> ((64 - z) as u64) == 0,
                    (bit >> ((63 - z) as u64)) & 1 != 0,
            ;
        }
        found
    }

    /// The location as one number, for use as part of a key.
    pub fn code(self) -> (code: u8)
        ensures
            code == self.spec_code(),
            1 <= code <= 128,
            self.wf(),
    {
        proof {
            use_type_invariant(&self);
        }
        1 + self.rank * 8 + self.file + if self.promoted {
            64
        } else {
            0
        }
    }

    #[verifier::when_used_as_spec(spec_is_queen)]
    pub fn is_queen(self) -> (promoted: bool)
        ensures
            promoted == self.spec_is_queen(),
    {
        self.promoted
    }

    /// Marks the pawn on this square as promoted.
    pub fn promote(&mut self)
        ensures
            *final(self) == old(self).spec_promoted(),
            final(self).spec_is_queen(),
            final(self).same_square(*old(self)),
    {
        proof {
            use_type_invariant(&*self);
        }
        self.promoted = true;
    }

    /// Moves to the square of `loc` and keeps the own mark.
    pub fn set(&mut self, loc: Location)
        ensures
            *final(self) == old(self).spec_moved_to(loc),
            final(self).same_square(loc),
            final(self).spec_is_queen() == old(self).spec_is_queen(),
    {
        proof {
            use_type_invariant(&loc);
        }
        *self = Location { rank: loc.rank, file: loc.file, promoted: self.promoted };
    }

    /// The square seen from the other side of the board: a half turn.
    pub fn invert(self) -> (turned: Location)
        ensures
            turned.spec_rank() == 7 - self.spec_rank(),
            turned.spec_file() == 7 - self.spec_file(),
            !turned.spec_is_queen(),
            turned.wf(),
            self.wf(),
    {
        proof {
            use_type_invariant(&self);
        }
        loc(7 - self.rank, 7 - self.file)
    }

    /// The square with rank and file exchanged.
    pub fn transpose(self) -> (flipped: Location)
        ensures
            flipped.spec_rank() == self.spec_file(),
            flipped.spec_file() == self.spec_rank(),
            !flipped.spec_is_queen(),
            flipped.wf(),
            self.wf(),
    {
        proof {
            use_type_invariant(&self);
        }
        loc(self.file, self.rank)
    }
}

/// The unpromoted location of square `(rank, file)`.
pub fn loc(rank: u8, file: u8) -> (loc: Location)
    requires
        rank < 8,
        file < 8,
    ensures
        loc == spec_loc(rank, file),
        loc.spec_rank() == rank,
        loc.spec_file() == file,
        !loc.spec_is_queen(),
        loc.wf(),
{
    Location { rank, file, promoted: false }
}

impl From<(u8, u8)> for Location {
    /// The unpromoted location of square `(rank, file)`, each coordinate
    /// taken modulo 8.
    fn from(pair: (u8, u8)) -> (loc: Location) {
        Location { rank: pair.0 % 8, file: pair.1 % 8, promoted: false }
    }
}

impl vstd::std_specs::convert::FromSpecImpl<(u8, u8)> for Location {
    open spec fn obeys_from_spec() -> bool {
        true
    }

    open spec fn from_spec(pair: (u8, u8)) -> Location {
        spec_loc(pair.0 % 8, pair.1 % 8)
    }
}

impl PartialEq for Location {
    fn eq(&self, other: &Self) -> (equal: bool)
    {
        self.rank == other.rank && self.file == other.file
    }
}

impl vstd::std_specs::cmp::PartialEqSpecImpl for Location {
    open spec fn obeys_eq_spec() -> bool {
        true
    }

    open spec fn eq_spec(&self, other: &Self) -> bool {
        self.same_square(*other)
    }
}

/// Encoding a square as its bit and decoding the bit gives the square back,
/// for each of the 64 squares.
pub proof fn lemma_pos_round_trip(rank: u8, file: u8)
    requires
        rank < 8,
        file < 8,
    ensures
        top_square(square_bit(rank, file)) == 8 * rank + file,
{
    let s: u64 = (8 * rank + file) as u64;
    let bit: u64 = square_bit(rank, file);
    assert(bit == 1u64 << s);
    assert(1u64 << s != 0) by (bit_vector)
        requires
            s < 64,
    ;
    axiom_u64_leading_zeros(bit);
    let z: u64 = u64_leading_zeros(bit) as u64;
    let l: u64 = (63 - z) as u64;
    assert(l == s) by (bit_vector)
        requires
            s < 64,
            z < 64,
            l == 63 - z,
            ((1u64 << s) >> ((63 - z) as u64)) & 1 != 0,
    ;
}

} // verus!
