use vstd::prelude::*;
use vstd::string::StringSliceAdditionalSpecFns;

verus! {

/// The two sides. White starts on ranks 6 and 7 and moves towards rank 0;
/// Black starts on ranks 0 and 1 and moves towards rank 7.
#[derive(Clone, Copy, Debug, PartialEq, Eq, Structural)]
pub enum Color {
    White,
    Black,
}

#[derive(Clone, Copy, Debug, PartialEq, Eq, Structural)]
pub enum Kind {
    King,
    Queen,
    Bishop,
    Knight,
    Rook,
    Pawn,
}

/// A piece found on the board: what it is, whose it is, and the slot it
/// occupies in its owner's slot array.
#[derive(Clone, Copy, Debug, PartialEq, Eq, Structural)]
pub struct Piece {
    pub kind: Kind,
    pub color: Color,
    pub index: PieceIndex,
}

/// The identity of a piece for its lifetime: its slot in a player's array of
/// sixteen. Slot 0 is the king, 1 the queen, 2 and 3 the bishops, 4 and 5 the
/// knights, 6 and 7 the rooks, 8 to 15 the pawns. The constants below name
/// the first slot of each kind.
#[derive(Clone, Copy, Debug, PartialEq, Eq, Structural)]
pub struct PieceIndex(pub u8);

pub const KING: u8 = 0;

pub const QUEEN: u8 = 1;

pub const BISHOP: u8 = 2;

pub const KNIGHT: u8 = 4;

pub const ROOK: u8 = 6;

pub const PAWN: u8 = 8;

/// The kind of the piece that lives in slot `index`.
pub open spec fn kind_of_slot(index: int) -> Kind {
    if index == 0 {
        Kind::King
    } else if index == 1 {
        Kind::Queen
    } else if index == 2 || index == 3 {
        Kind::Bishop
    } else if index == 4 || index == 5 {
        Kind::Knight
    } else if index == 6 || index == 7 {
        Kind::Rook
    } else {
        Kind::Pawn
    }
}

/// The first slot that holds pieces of `kind`.
pub open spec fn first_slot(kind: Kind) -> PieceIndex {
    match kind {
        Kind::King => PieceIndex(KING),
        Kind::Queen => PieceIndex(QUEEN),
        Kind::Bishop => PieceIndex(BISHOP),
        Kind::Knight => PieceIndex(KNIGHT),
        Kind::Rook => PieceIndex(ROOK),
        Kind::Pawn => PieceIndex(PAWN),
    }
}

/// The lower-case form of an ASCII capital; any other byte as it is.
pub open spec fn lower(byte: u8) -> u8 {
    if 65 <= byte <= 90 {
        (byte + 32) as u8
    } else {
        byte
    }
}

/// Whether `bytes` spells the lower-case `word`, in letters of either case.
pub open spec fn spells(bytes: Seq<u8>, word: Seq<u8>) -> bool {
    &&& bytes.len() == word.len()
    &&& forall|i: int| 0 <= i < bytes.len() ==> lower(#[trigger] bytes[i]) == word[i]
}

/// Decides whether `bytes` spells `word`.
fn spelled(bytes: &[u8], word: &[u8; 5]) -> (same: bool)
    ensures
        same == spells(bytes@, word@),
{
    if bytes.len() != 5 {
        return false;
    }
    let mut i: usize = 0;
    while i < 5
        invariant
            i <= 5,
            bytes@.len() == 5,
            forall|k: int| 0 <= k < i ==> lower(#[trigger] bytes@[k]) == word@[k],
        decreases 5 - i,
    {
        let byte = bytes[i];
        let folded: u8 = if 65 <= byte && byte <= 90 {
            byte + 32
        } else {
            byte
        };
        if folded != word[i] {
            return false;
        }
        i += 1;
    }
    true
}

pub const WHITE: [u8; 5] = [119, 104, 105, 116, 101];

pub const BLACK: [u8; 5] = [98, 108, 97, 99, 107];

impl Color {
    /// The side that `s` names: `white` or `black`, in letters of either
    /// case.
    pub fn from_name(s: &str) -> (color: Result<Color, &'static str>)
        ensures
            spells(s.spec_bytes(), WHITE@) ==> color == Ok::<Color, &'static str>(Color::White),
            !spells(s.spec_bytes(), WHITE@) && spells(s.spec_bytes(), BLACK@) ==> color == Ok::<
                Color,
                &'static str,
            >(Color::Black),
            !spells(s.spec_bytes(), WHITE@) && !spells(s.spec_bytes(), BLACK@) ==> (
            color matches Err(text) && text@ == "not a valid player"@),
    {
        let bytes = s.as_bytes();
        if spelled(bytes, &WHITE) {
            Ok(Color::White)
        } else if spelled(bytes, &BLACK) {
            Ok(Color::Black)
        } else {
            Err("not a valid player")
        }
    }

    pub open spec fn spec_opposite(self) -> Color {
        match self {
            Color::Black => Color::White,
            Color::White => Color::Black,
        }
    }

    #[verifier::when_used_as_spec(spec_opposite)]
    pub fn opposite(self) -> (other: Color)
        ensures
            other == self.spec_opposite(),
            other != self,
    {
        match self {
            Color::Black => Color::White,
            Color::White => Color::Black,
        }
    }

    /// The rank on which this side's rooks and king start.
    pub open spec fn spec_home_rank(self) -> u8 {
        match self {
            Color::Black => 0,
            Color::White => 7,
        }
    }

    #[verifier::when_used_as_spec(spec_home_rank)]
    pub fn home_rank(self) -> (rank: u8)
        ensures
            rank == self.spec_home_rank(),
    {
        match self {
            Color::Black => 0,
            Color::White => 7,
        }
    }

    pub open spec fn spec_promotion_rank(self) -> isize {
        match self {
            Color::Black => 7,
            Color::White => 0,
        }
    }

    /// The farthest rank, on which this side's pawns promote.
    #[verifier::when_used_as_spec(spec_promotion_rank)]
    pub fn promotion_rank(self) -> (rank: isize)
        ensures
            rank == self.spec_promotion_rank(),
            rank == self.spec_opposite().spec_home_rank(),
    {
        match self {
            Color::Black => 7,
            Color::White => 0,
        }
    }

    pub open spec fn spec_pawn_blocking_rank(self) -> isize {
        match self {
            Color::Black => 2,
            Color::White => 5,
        }
    }

    /// The rank just in front of this side's pawns at the start: the rank a
    /// two-square push passes over.
    #[verifier::when_used_as_spec(spec_pawn_blocking_rank)]
    pub fn pawn_blocking_rank(self) -> (rank: isize)
        ensures
            rank == self.spec_pawn_blocking_rank(),
            rank == self.spec_pawn_start() + self.spec_pawn_dir(),
    {
        match self {
            Color::Black => 2,
            Color::White => 5,
        }
    }

    pub open spec fn spec_pawn_start(self) -> isize {
        match self {
            Color::Black => 1,
            Color::White => 6,
        }
    }

    /// The rank on which this side's pawns start.
    #[verifier::when_used_as_spec(spec_pawn_start)]
    pub fn pawn_start(self) -> (rank: isize)
        ensures
            rank == self.spec_pawn_start(),
    {
        match self {
            Color::Black => 1,
            Color::White => 6,
        }
    }

    pub open spec fn spec_pawn_dir(self) -> isize {
        match self {
            Color::Black => 1isize,
            Color::White => -1isize,
        }
    }

    /// The change of rank of one pawn step of this side.
    #[verifier::when_used_as_spec(spec_pawn_dir)]
    pub fn pawn_dir(self) -> (dir: isize)
        ensures
            dir == self.spec_pawn_dir(),
    {
        match self {
            Color::Black => 1,
            Color::White => -1,
        }
    }

    /// The lower-case English name of the side.
    pub fn name(self) -> (text: &'static str)
        ensures
            text@ == (match self {
                Color::White => "white"@,
                Color::Black => "black"@,
            }),
    {
        match self {
            Color::White => "white",
            Color::Black => "black",
        }
    }
}

impl std::str::FromStr for Color {
    type Err = &'static str;

    /// Parses the name of a side as `from_name` does: `white` or `black` in
    /// letters of either case, and an error for anything else.
    fn from_str(s: &str) -> (color: Result<Self, Self::Err>)
        ensures
            spells(s.spec_bytes(), WHITE@) ==> color == Ok::<Color, &'static str>(Color::White),
            !spells(s.spec_bytes(), WHITE@) && spells(s.spec_bytes(), BLACK@) ==> color == Ok::<
                Color,
                &'static str,
            >(Color::Black),
            !spells(s.spec_bytes(), WHITE@) && !spells(s.spec_bytes(), BLACK@) ==> (
            color matches Err(text) && text@ == "not a valid player"@),
    {
        Color::from_name(s)
    }
}

impl Default for Color {
    fn default() -> (color: Color)
        ensures
            color == Color::White,
    {
        Color::White
    }
}

impl Kind {
    /// The lower-case English name of the kind.
    pub fn name(self) -> (text: &'static str)
        ensures
            text@ == (match self {
                Kind::King => "king"@,
                Kind::Queen => "queen"@,
                Kind::Bishop => "bishop"@,
                Kind::Knight => "knight"@,
                Kind::Rook => "rook"@,
                Kind::Pawn => "pawn"@,
            }),
    {
        match self {
            Kind::King => "king",
            Kind::Queen => "queen",
            Kind::Bishop => "bishop",
            Kind::Knight => "knight",
            Kind::Rook => "rook",
            Kind::Pawn => "pawn",
        }
    }
}

impl Piece {
    /// The first slot of this piece's kind, from which a walk over the slots
    /// of that kind starts.
    pub fn piece_iter(&self) -> (first: PieceIndex)
        ensures
            first == first_slot(self.kind),
            kind_of_slot(first.0 as int) == self.kind,
    {
        match self.kind {
            Kind::King => PieceIndex(KING),
            Kind::Queen => PieceIndex(QUEEN),
            Kind::Bishop => PieceIndex(BISHOP),
            Kind::Knight => PieceIndex(KNIGHT),
            Kind::Rook => PieceIndex(ROOK),
            Kind::Pawn => PieceIndex(PAWN),
        }
    }
}

impl PieceIndex {
    /// Steps to the following slot; the counter stops at 255.
    pub fn next(&mut self)
        ensures
            final(self).0 == (if old(self).0 == 255 { 255 } else { old(self).0 + 1 }),
    {
        self.0 = self.0.saturating_add(1);
    }

    /// Whether the walk has passed the last of the sixteen slots.
    pub fn finished(&mut self) -> (done: bool)
        ensures
            done == (old(self).0 >= 16),
            *final(self) == *old(self),
    {
        self.0 >= 16
    }

    /// Raises the index to the low byte of `val` if it is below it.
    pub fn at_least(&mut self, val: usize)
        ensures
            final(self).0 == (if old(self).0 >= (val as u8) { old(self).0 } else { val as u8 }),
    {
        let floor: u8 = #[verifier::truncate] (val as u8);
        if self.0 < floor {
            self.0 = floor;
        }
    }

    pub fn kind(&self) -> (kind: Kind)
        ensures
            kind == kind_of_slot(self.0 as int),
    {
        match self.0 {
            0 => Kind::King,
            1 => Kind::Queen,
            2 | 3 => Kind::Bishop,
            4 | 5 => Kind::Knight,
            6 | 7 => Kind::Rook,
            _ => Kind::Pawn,
        }
    }
}

} // verus!
