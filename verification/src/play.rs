use vstd::prelude::*;
use crate::piece::Piece;

verus! {

/// A square named by signed coordinates, which may lie off the board.
#[derive(Clone, Debug, Copy, Hash, PartialEq, Eq, PartialOrd, Ord)]
pub struct Position {
    pub rank: i8,
    pub file: i8,
}

/// The change of square of one piece, from square to square.
#[derive(Debug, Clone, Copy, PartialEq, Eq, Hash)]
pub struct Move {
    pub to: Position,
    pub from: Position,
}

/// A move with what it meets on its destination. A `Defense` is no move
/// that can be played: it reaches a piece of the mover's own side, and is
/// kept for what it tells an evaluator.
#[derive(Debug)]
pub enum Play {
    Defense(Move, Piece),
    Capture(Move, Piece),
    Move(Move),
    RightCastle,
    LeftClastle,
}

/// Whether the play can be played: every play but a defense can.
pub fn playable(play: Play) -> (can: bool)
    ensures
        can == !(play is Defense),
{
    match play {
        Play::Defense(_, _) => false,
        _ => true,
    }
}

impl From<(i8, i8)> for Position {
    /// The position with the first of the pair as its rank and the second
    /// as its file.
    fn from(obj: (i8, i8)) -> (position: Position) {
        Position { rank: obj.0, file: obj.1 }
    }
}

impl vstd::std_specs::convert::FromSpecImpl<(i8, i8)> for Position {
    open spec fn obeys_from_spec() -> bool {
        true
    }

    open spec fn from_spec(obj: (i8, i8)) -> Position {
        Position { rank: obj.0, file: obj.1 }
    }
}

impl Position {
    /// Whether the square lies on the board.
    pub open spec fn on_board(self) -> bool {
        0 <= self.rank < 8 && 0 <= self.file < 8
    }

    /// The position itself if it lies on the board.
    pub fn validate(self) -> (valid: Option<Self>)
        ensures
            valid == (if self.on_board() {
                Some(self)
            } else {
                None
            }),
    {
        if 0 <= self.rank && self.rank < 8 && 0 <= self.file && self.file < 8 {
            Some(self)
        } else {
            None
        }
    }

    /// The squares named by the pairs of `pos`, rank first, that lie on the
    /// board, in the order of `pos`.
    pub fn relative(self, pos: &[(i8, i8)]) -> (squares: Vec<Position>)
        ensures
            squares@ == pos@.map_values(|pair: (i8, i8)| Position { rank: pair.0, file: pair.1 }).filter(
                |square: Position| square.on_board(),
            ),
    {
        let ghost all = pos@.map_values(|pair: (i8, i8)| Position { rank: pair.0, file: pair.1 });
        let ghost keep = |square: Position| square.on_board();
        let mut squares: Vec<Position> = Vec::new();
        let mut i: usize = 0;
        while i < pos.len()
            invariant
                i <= pos.len(),
                all == pos@.map_values(|pair: (i8, i8)| Position { rank: pair.0, file: pair.1 }),
                keep == (|square: Position| square.on_board()),
                squares@ == all.take(i as int).filter(keep),
            decreases pos.len() - i,
        {
            let square = Position { rank: pos[i].0, file: pos[i].1 };
            proof {
                reveal(Seq::filter);
                assert(all.take(i + 1).drop_last() =~= all.take(i as int));
                assert(all.take(i + 1).last() == square);
            }
            if 0 <= square.rank && square.rank < 8 && 0 <= square.file && square.file < 8 {
                squares.push(square);
            }
            i += 1;
        }
        proof {
            assert(all.take(pos.len() as int) =~= all);
        }
        squares
    }
}

} // verus!
