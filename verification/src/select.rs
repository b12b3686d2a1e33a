use vstd::prelude::*;
use crate::board::Board;
use crate::location::Location;
use crate::moves::Move;
use crate::piece::Color;

verus! {

/// The colour of square `(rank, file)` of the board: white where rank and
/// file add up to an even number.
pub fn color(rank: u8, file: u8) -> (color: Color)
    requires
        rank + file <= u8::MAX,
    ensures
        color == (if (rank + file) % 2 == 0 {
            Color::White
        } else {
            Color::Black
        }),
{
    if (rank + file) % 2 == 0 {
        Color::White
    } else {
        Color::Black
    }
}

/// The order in which a player sees the ranks and the files: from 0 to 7
/// for White, from 7 to 0 for Black.
pub fn range(play_as: Color) -> (order: Vec<u8>)
    ensures
        order@.len() == 8,
        forall|i: int|
            0 <= i < 8 ==> #[trigger] order@[i] == (match play_as {
                Color::White => i,
                Color::Black => 7 - i,
            }),
{
    let mut order: Vec<u8> = Vec::new();
    let mut i: u8 = 0;
    while i < 8
        invariant
            i <= 8,
            order@.len() == i,
            forall|k: int|
                0 <= k < i ==> #[trigger] order@[k] == (match play_as {
                    Color::White => k,
                    Color::Black => 7 - k,
                }),
        decreases 8 - i,
    {
        order.push(
            match play_as {
                Color::White => i,
                Color::Black => 7 - i,
            },
        );
        i += 1;
    }
    order
}

/// The squares to show as destinations when `selected` is the square in
/// hand: those of the moves of the piece on it, if there is one.
pub open spec fn spec_highlighted(board: Board, selected: Option<Location>) -> Seq<Location> {
    match selected {
        Some(chosen) => if board.spec_search_for(chosen) is Some {
            board.spec_moves_for_piece(chosen).map_values(|mov: Move| mov.to)
        } else {
            Seq::empty()
        },
        None => Seq::empty(),
    }
}

pub fn highlighted(board: &Board, selected: Option<Location>) -> (squares: Vec<Location>)
    ensures
        squares@ == spec_highlighted(*board, selected),
{
    let mut squares: Vec<Location> = Vec::new();
    if let Some(chosen) = selected {
        if board.search_for(chosen).is_some() {
            let list = board.moves_for_piece(chosen);
            let mut i: usize = 0;
            while i < list.len()
                invariant
                    i <= list.len(),
                    squares@ == list@.take(i as int).map_values(|mov: Move| mov.to),
                decreases list.len() - i,
            {
                proof {
                    assert(list@.take(i + 1).map_values(|mov: Move| mov.to) =~= list@.take(
                        i as int,
                    ).map_values(|mov: Move| mov.to).push(list@[i as int].to));
                }
                squares.push(list[i].to);
                i += 1;
            }
            proof {
                assert(list@.take(list.len() as int) =~= list@);
            }
        }
    }
    squares
}

/// What a board on a screen keeps between two clicks: the square in hand,
/// whether the user may play, and the position.
#[derive(Clone, Copy, PartialEq)]
pub struct UseSelected {
    pub pos: Option<Location>,
    pub allow_play: bool,
    pub board: Board,
}

impl UseSelected {
    /// Whether a click on `pos` takes a piece in hand: the user may play and
    /// a piece of the side to move stands there.
    pub open spec fn spec_is_valid(self, pos: Location) -> bool {
        self.board.spec_search_for(pos) matches Some(piece) && self.allow_play && piece.color
            == self.board.meta.spec_turn()
    }

    pub fn is_valid(&self, pos: Location) -> (valid: bool)
        ensures
            valid == self.spec_is_valid(pos),
    {
        if let Some(piece) = self.board.search_for(pos) {
            return self.allow_play && piece.color == self.board.meta.turn();
        }
        false
    }

    /// The state after a click on `pos` with no square in hand.
    pub open spec fn spec_set_new(self, pos: Location) -> UseSelected {
        if self.spec_is_valid(pos) {
            UseSelected { pos: Some(pos), ..self }
        } else {
            self
        }
    }

    /// Takes the piece on `pos` in hand if that is a valid choice.
    pub fn set_new(&mut self, pos: Location)
        ensures
            *final(self) == old(self).spec_set_new(pos),
    {
        if self.is_valid(pos) {
            self.pos = Some(pos);
        }
    }

    /// The state after a click on `pos`. With a square in hand the click
    /// names a destination: a legal move is played and the hand is empty;
    /// an illegal one empties the hand, and the click counts as one with no
    /// square in hand.
    pub open spec fn spec_set(self, pos: Location) -> UseSelected {
        match self.pos {
            Some(prev) => match self.board.legal_move(prev, pos) {
                Some(mov) => UseSelected {
                    pos: None,
                    allow_play: self.allow_play,
                    board: self.board.spec_apply(mov),
                },
                None => (UseSelected { pos: None, ..self }).spec_set_new(pos),
            },
            None => self.spec_set_new(pos),
        }
    }

    /// Handles a click on `pos`.
    pub fn set(&mut self, pos: Location)
        ensures
            *final(self) == old(self).spec_set(pos),
    {
        match self.pos {
            Some(prev) => {
                if let Some(next) = self.board.apply((pos, prev)) {
                    self.board = next;
                    self.pos = None;
                } else {
                    self.pos = None;
                    self.set_new(pos);
                }
            },
            None => self.set_new(pos),
        }
    }
}

} // verus!
