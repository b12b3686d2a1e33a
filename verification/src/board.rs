use vstd::prelude::*;
use crate::location::loc;
use crate::location::spec_loc;
use crate::location::Location;
use crate::moves::_moves;
use crate::moves::bitfields::occupancy;
use crate::moves::king::castle_safe;
use crate::moves::king::is_castle_safe;
use crate::moves::spec_moves;
use crate::moves::positions::Positions;
use crate::moves::Move;
use crate::metadata::Metadata;
use crate::piece::kind_of_slot;
use crate::piece::Color;
use crate::piece::Kind;
use crate::piece::Piece;
use crate::piece::PieceIndex;
use crate::search::is_search_result;
use crate::search::root_moves;
use crate::search::search;
use crate::search::Params;

verus! {

/// One side's sixteen pieces. Slot `i` holds the square of piece `i`, or
/// `None` once it has been captured; see [`PieceIndex`] for which piece lives
/// in which slot.
#[derive(Clone, Copy, PartialEq, Debug)]
pub struct Player {
    pub slots: [Option<Location>; 16],
    pub color: Color,
}

/// A position: both sides' pieces and the metadata.
#[derive(Clone, Copy, PartialEq, Debug)]
pub struct Board {
    pub white: Player,
    pub black: Player,
    pub meta: Metadata,
}

/// The file on which piece `slot` starts.
pub open spec fn initial_file(slot: int) -> int {
    if slot == 0 {
        4
    } else if slot == 1 {
        3
    } else if slot == 2 {
        2
    } else if slot == 3 {
        5
    } else if slot == 4 {
        1
    } else if slot == 5 {
        6
    } else if slot == 6 {
        0
    } else if slot == 7 {
        7
    } else {
        slot - 8
    }
}

/// The rank on which piece `slot` of `color` starts.
pub open spec fn initial_rank(color: Color, slot: int) -> int {
    if slot < 8 {
        color.spec_home_rank() as int
    } else {
        color.spec_pawn_start() as int
    }
}

/// Whether `slot` holds a piece on the square with number `square`.
pub open spec fn stands(slot: Option<Location>, square: int) -> bool {
    slot matches Some(held) && held.square() == square
}

/// Whether every piece of `player` stands on the board.
pub open spec fn squares_wf(player: Player) -> bool {
    forall|i: int| 0 <= i < 16 ==> (#[trigger] player.slots[i] matches Some(held) ==> held.wf())
}

/// Whether no two pieces of `player` stand on one square.
pub open spec fn spread(player: Player) -> bool {
    forall|i: int, j: int, square: int|
        0 <= i < 16 && 0 <= j < 16 && i != j && #[trigger] stands(player.slots[i], square)
            ==> !#[trigger] stands(player.slots[j], square)
}

/// Whether no piece of `a` stands on a square with a piece of `b`.
pub open spec fn apart(a: Player, b: Player) -> bool {
    forall|i: int, j: int, square: int|
        0 <= i < 16 && 0 <= j < 16 && #[trigger] stands(a.slots[i], square) ==> !#[trigger] stands(
            b.slots[j],
            square,
        )
}

/// Whether `slot` holds a piece on the square of `loc`.
pub open spec fn slot_at(slot: Option<Location>, loc: Location) -> bool {
    slot matches Some(held) && held.same_square(loc)
}

impl Player {
    /// The least slot from `from` on that holds a piece on the square of
    /// `loc`; 16 if there is none.
    pub open spec fn find_from(self, loc: Location, from: int) -> int
        decreases 16 - from,
    {
        if from >= 16 {
            16
        } else if slot_at(self.slots[from], loc) {
            from
        } else {
            self.find_from(loc, from + 1)
        }
    }

    /// The least slot that holds a piece on the square of `loc`; 16 if there
    /// is none.
    pub open spec fn find(self, loc: Location) -> int {
        self.find_from(loc, 0)
    }

    /// `find_from` returns the first slot on the square, and 16 exactly when
    /// no slot from `from` on is on it.
    pub proof fn lemma_find_from(self, loc: Location, from: int)
        requires
            0 <= from <= 16,
        ensures
            from <= self.find_from(loc, from) <= 16,
            self.find_from(loc, from) < 16 ==> slot_at(
                self.slots[self.find_from(loc, from)],
                loc,
            ),
            forall|i: int| from <= i < self.find_from(loc, from) ==> !slot_at(self.slots[i], loc),
        decreases 16 - from,
    {
        if from < 16 && !slot_at(self.slots[from], loc) {
            self.lemma_find_from(loc, from + 1);
        }
    }

    /// The player with `held` in slot `slot`.
    pub open spec fn spec_with(self, slot: int, held: Option<Location>) -> Player {
        Player { slots: vstd::array::spec_array_update(self.slots, slot, held), color: self.color }
    }

    /// The player after the slots below `n` that stand on the square of
    /// `loc` have been emptied.
    pub open spec fn remove_below(self, loc: Location, n: nat) -> Player
        decreases n,
    {
        if n == 0 {
            self
        } else {
            let rest = self.remove_below(loc, (n - 1) as nat);
            if slot_at(self.slots[n - 1], loc) {
                rest.spec_with(n - 1, None)
            } else {
                rest
            }
        }
    }

    /// The player after every piece on the square of `loc` has been taken
    /// off the board.
    pub open spec fn spec_remove(self, loc: Location) -> Player {
        self.remove_below(loc, 16)
    }

    /// Slot by slot, what `remove_below` leaves.
    pub proof fn lemma_remove_below(self, loc: Location, n: nat)
        requires
            n <= 16,
        ensures
            self.remove_below(loc, n).color == self.color,
            forall|i: int|
                0 <= i < 16 ==> #[trigger] self.remove_below(loc, n).slots[i] == (if i < n
                    && slot_at(self.slots[i], loc) {
                    None
                } else {
                    self.slots[i]
                }),
        decreases n,
    {
        if n > 0 {
            self.lemma_remove_below(loc, (n - 1) as nat);
        }
    }

    /// Whether every slot is empty.
    pub open spec fn is_empty(self) -> bool {
        forall|i: int| 0 <= i < 16 ==> self.slots[i] is None
    }

    /// Whether the slots hold the initial arrangement of `color`.
    pub open spec fn is_initial(self, color: Color) -> bool {
        &&& self.color == color
        &&& forall|i: int|
            0 <= i < 16 ==> (#[trigger] self.slots[i] matches Some(held) && held.spec_rank()
                == initial_rank(color, i) && held.spec_file() == initial_file(i)
                && !held.spec_is_queen())
    }

    /// The square of piece `piece`, if it is still on the board.
    pub fn get(&self, piece: PieceIndex) -> (held: Option<Location>)
        requires
            piece.0 < 16,
        ensures
            held == self.slots[piece.0 as int],
    {
        self.slots[piece.0 as usize]
    }

    /// Puts piece `piece` on `held`, or takes it off the board.
    pub fn set(&mut self, piece: PieceIndex, held: Option<Location>)
        requires
            piece.0 < 16,
        ensures
            *final(self) == old(self).spec_with(piece.0 as int, held),
            final(self).slots@ == old(self).slots@.update(piece.0 as int, held),
            final(self).color == old(self).color,
    {
        self.slots[piece.0 as usize] = held;
        proof {
            assert(self.slots =~= old(self).spec_with(piece.0 as int, held).slots);
        }
    }

    pub fn locations(&self) -> (slots: &[Option<Location>; 16])
        ensures
            *slots == self.slots,
    {
        &self.slots
    }

    pub fn locations_mut(&mut self) -> (slots: &mut [Option<Location>; 16])
        ensures
            *slots == old(self).slots,
            *final(self) == (Player { slots: *final(slots), color: old(self).color }),
    {
        &mut self.slots
    }

    /// Takes every piece that stands on the square of `loc` off the board.
    pub fn remove(&mut self, loc: Location)
        ensures
            *final(self) == old(self).spec_remove(loc),
            final(self).color == old(self).color,
            forall|i: int|
                0 <= i < 16 ==> #[trigger] final(self).slots[i] == (if slot_at(
                    old(self).slots[i],
                    loc,
                ) {
                    None
                } else {
                    old(self).slots[i]
                }),
    {
        let mut i: usize = 0;
        while i < 16
            invariant
                i <= 16,
                self.color == old(self).color,
                forall|j: int|
                    0 <= j < i ==> #[trigger] self.slots[j] == (if slot_at(old(self).slots[j], loc) {
                        None
                    } else {
                        old(self).slots[j]
                    }),
                forall|j: int| i <= j < 16 ==> #[trigger] self.slots[j] == old(self).slots[j],
            decreases 16 - i,
        {
            let hit = match self.slots[i] {
                Some(held) => held == loc,
                None => false,
            };
            if hit {
                self.slots[i] = None;
            }
            i += 1;
        }
        proof {
            old(self).lemma_remove_below(loc, 16);
            assert(self.slots =~= old(self).spec_remove(loc).slots);
        }
    }

    /// The side with no piece on the board.
    pub fn empty(color: Color) -> (player: Player)
        ensures
            player.color == color,
            player.is_empty(),
    {
        Player { slots: [None; 16], color }
    }

    /// White's pieces at the start of a game.
    pub fn white() -> (player: Player)
        ensures
            player.is_initial(Color::White),
    {
        Player {
            color: Color::White,
            slots: [
                Some(loc(7, 4)),
                Some(loc(7, 3)),
                Some(loc(7, 2)),
                Some(loc(7, 5)),
                Some(loc(7, 1)),
                Some(loc(7, 6)),
                Some(loc(7, 0)),
                Some(loc(7, 7)),
                Some(loc(6, 0)),
                Some(loc(6, 1)),
                Some(loc(6, 2)),
                Some(loc(6, 3)),
                Some(loc(6, 4)),
                Some(loc(6, 5)),
                Some(loc(6, 6)),
                Some(loc(6, 7)),
            ],
        }
    }

    /// Black's pieces at the start of a game.
    pub fn black() -> (player: Player)
        ensures
            player.is_initial(Color::Black),
    {
        Player {
            color: Color::Black,
            slots: [
                Some(loc(0, 4)),
                Some(loc(0, 3)),
                Some(loc(0, 2)),
                Some(loc(0, 5)),
                Some(loc(0, 1)),
                Some(loc(0, 6)),
                Some(loc(0, 0)),
                Some(loc(0, 7)),
                Some(loc(1, 0)),
                Some(loc(1, 1)),
                Some(loc(1, 2)),
                Some(loc(1, 3)),
                Some(loc(1, 4)),
                Some(loc(1, 5)),
                Some(loc(1, 6)),
                Some(loc(1, 7)),
            ],
        }
    }
}

impl Default for Board {
    /// The standard initial position.
    fn default() -> (board: Board)
        ensures
            board.white.is_initial(Color::White),
            board.black.is_initial(Color::Black),
            board.meta == Metadata::spec_default(),
            board.wf(),
    {
        let board = Board {
            white: Player::white(),
            black: Player::black(),
            meta: Metadata::default(),
        };
        proof {
            lemma_initial_wf(board);
        }
        board
    }
}

impl Board {
    /// Whether this is a position of the game as far as the squares go: each
    /// side has its own colour, every piece stands on the board, and no two
    /// pieces, of one side or of both, stand on one square.
    pub open spec fn wf(self) -> bool {
        &&& self.white.color == Color::White
        &&& self.black.color == Color::Black
        &&& squares_wf(self.white)
        &&& squares_wf(self.black)
        &&& spread(self.white)
        &&& spread(self.black)
        &&& apart(self.white, self.black)
    }

    /// The player of `color`.
    pub open spec fn spec_side(self, color: Color) -> Player {
        match color {
            Color::White => self.white,
            Color::Black => self.black,
        }
    }

    /// The player to move.
    pub open spec fn spec_me(self) -> Player {
        self.spec_side(self.meta.spec_turn())
    }

    /// The player who waits.
    pub open spec fn spec_opponent(self) -> Player {
        self.spec_side(self.meta.spec_turn().spec_opposite())
    }

    /// A board without pieces: White to move, no castle rights, no
    /// en-passant target.
    pub fn empty() -> (board: Board)
        ensures
            board.white.is_empty(),
            board.black.is_empty(),
            board.white.color == Color::White,
            board.black.color == Color::Black,
            board.meta.spec_turn() == Color::White,
            forall|c: Color| !board.meta.spec_kingside_castle(c),
            forall|c: Color| !board.meta.spec_queenside_castle(c),
            board.meta.spec_passant_file() is None,
            board.wf(),
    {
        let mut meta = Metadata::default();
        proof {
            meta.lemma_lose_kingside(Color::White);
        }
        meta.lose_kingside(Color::White);
        proof {
            meta.lemma_lose_kingside(Color::Black);
        }
        meta.lose_kingside(Color::Black);
        proof {
            meta.lemma_lose_queenside(Color::White);
        }
        meta.lose_queenside(Color::White);
        proof {
            meta.lemma_lose_queenside(Color::Black);
        }
        meta.lose_queenside(Color::Black);
        Board { white: Player::empty(Color::White), black: Player::empty(Color::Black), meta }
    }

    pub fn side(&self, color: Color) -> (player: &Player)
        ensures
            *player == self.spec_side(color),
    {
        match color {
            Color::White => &self.white,
            Color::Black => &self.black,
        }
    }

    pub fn me(&self) -> (player: &Player)
        ensures
            *player == self.spec_me(),
    {
        match self.meta.turn() {
            Color::White => &self.white,
            Color::Black => &self.black,
        }
    }

    pub fn opponent(&self) -> (player: &Player)
        ensures
            *player == self.spec_opponent(),
    {
        match self.meta.turn() {
            Color::White => &self.black,
            Color::Black => &self.white,
        }
    }

    pub fn me_mut(&mut self) -> (player: &mut Player)
        ensures
            *player == old(self).spec_me(),
            *final(self) == (match old(self).meta.spec_turn() {
                Color::White => Board { white: *final(player), ..*old(self) },
                Color::Black => Board { black: *final(player), ..*old(self) },
            }),
    {
        match self.meta.turn() {
            Color::White => &mut self.white,
            Color::Black => &mut self.black,
        }
    }

    pub fn opponent_mut(&mut self) -> (player: &mut Player)
        ensures
            *player == old(self).spec_opponent(),
            *final(self) == (match old(self).meta.spec_turn() {
                Color::White => Board { black: *final(player), ..*old(self) },
                Color::Black => Board { white: *final(player), ..*old(self) },
            }),
    {
        match self.meta.turn() {
            Color::White => &mut self.black,
            Color::Black => &mut self.white,
        }
    }

    /// The piece that `player` holds in `slot`: a pawn that has promoted is
    /// reported as a queen.
    pub open spec fn piece_in(player: Player, slot: int) -> Piece {
        Piece {
            kind: if player.slots[slot] matches Some(held) && held.spec_is_queen() {
                Kind::Queen
            } else {
                kind_of_slot(slot)
            },
            color: player.color,
            index: PieceIndex(slot as u8),
        }
    }

    /// The piece on the square of `index`: the first such slot of the side to
    /// move, else the first of the other side.
    pub open spec fn spec_search_for(self, index: Location) -> Option<Piece> {
        if self.spec_me().find(index) < 16 {
            Some(Self::piece_in(self.spec_me(), self.spec_me().find(index)))
        } else if self.spec_opponent().find(index) < 16 {
            Some(Self::piece_in(self.spec_opponent(), self.spec_opponent().find(index)))
        } else {
            None
        }
    }

    /// Looks up the piece that stands on the square of `index`.
    pub fn search_for(self, index: Location) -> (found: Option<Piece>)
        ensures
            found == self.spec_search_for(index),
    {
        match find_in(self.me(), index) {
            Some(piece) => Some(piece),
            None => find_in(self.opponent(), index),
        }
    }
}

/// The initial arrangement is a position of the game.
pub proof fn lemma_initial_wf(board: Board)
    requires
        board.white.is_initial(Color::White),
        board.black.is_initial(Color::Black),
    ensures
        board.wf(),
{
    assert forall|i: int| 0 <= i < 16 implies (#[trigger] board.white.slots[i] matches Some(held)
        && held.wf() && held.square() == 8 * initial_rank(Color::White, i) + initial_file(i))
        by {}
    assert forall|i: int| 0 <= i < 16 implies (#[trigger] board.black.slots[i] matches Some(held)
        && held.wf() && held.square() == 8 * initial_rank(Color::Black, i) + initial_file(i))
        by {}
}

/// Whether the piece in `slot`, which stands on `held`, is a pawn that has
/// not promoted.
pub open spec fn is_pawn(slot: int, held: Location) -> bool {
    slot >= 8 && !held.spec_is_queen()
}

/// Whether the move of the piece in `slot` from `held` to `to` is a castle:
/// the king goes two files along its rank.
pub open spec fn is_castle(slot: int, held: Location, to: Location) -> bool {
    slot == 0 && held.spec_rank() == to.spec_rank() && (to.spec_file() == held.spec_file() + 2
        || to.spec_file() + 2 == held.spec_file())
}

/// Whether the move is a pawn's push over two ranks.
pub open spec fn is_double_push(slot: int, held: Location, to: Location) -> bool {
    is_pawn(slot, held) && (to.spec_rank() == held.spec_rank() + 2 || to.spec_rank() + 2
        == held.spec_rank())
}

/// Whether the move takes a pawn of `turn` to its farthest rank.
pub open spec fn is_promotion(slot: int, held: Location, to: Location, turn: Color) -> bool {
    is_pawn(slot, held) && to.spec_rank() == turn.spec_promotion_rank()
}

/// Where and as what the moving piece lands: on the square of `to`, with
/// its mark, which is set when a pawn reaches its farthest rank.
pub open spec fn landed(slot: int, held: Location, to: Location, turn: Color) -> Location {
    if is_promotion(slot, held, to, turn) {
        held.spec_moved_to(to).spec_promoted()
    } else {
        held.spec_moved_to(to)
    }
}

/// The square on which the move captures, if it does: the destination when
/// the other side stands there; for a pawn that steps diagonally onto a free
/// square, the square beside it that it passes: the en-passant capture.
pub open spec fn captured_square(other: Player, slot: int, held: Location, to: Location) -> Option<
    Location,
> {
    if occupancy(other) & to.spec_pos() != 0 {
        Some(to)
    } else if is_pawn(slot, held) && held.spec_file() != to.spec_file() {
        Some(spec_loc(held.spec_rank(), to.spec_file()))
    } else {
        None
    }
}

/// The mover's side after the move: the piece has landed, and in a castle
/// the rook of that side, if it is on the board, stands on the square the
/// king has passed.
pub open spec fn moved_me(me: Player, slot: int, held: Location, to: Location, turn: Color) -> Player {
    let placed = me.spec_with(slot, Some(landed(slot, held, to, turn)));
    if is_castle(slot, held, to) {
        if to.spec_file() > held.spec_file() {
            match me.slots[7] {
                Some(rook) => placed.spec_with(
                    7,
                    Some(rook.spec_moved_to(spec_loc(to.spec_rank(), (to.spec_file() - 1) as u8))),
                ),
                None => placed,
            }
        } else {
            match me.slots[6] {
                Some(rook) => placed.spec_with(
                    6,
                    Some(rook.spec_moved_to(spec_loc(to.spec_rank(), (to.spec_file() + 1) as u8))),
                ),
                None => placed,
            }
        }
    } else {
        placed
    }
}

/// The other side after the move: what stood on the captured square is
/// gone.
pub open spec fn moved_other(other: Player, slot: int, held: Location, to: Location) -> Player {
    match captured_square(other, slot, held, to) {
        Some(square) => other.spec_remove(square),
        None => other,
    }
}

/// The castle rights after the move. A move of the king costs its side both
/// rights, a move of a rook the right of that rook; a move onto a corner of
/// the other side's first rank costs that side the right of that corner.
pub open spec fn moved_rights(meta: Metadata, slot: int, to: Location) -> Metadata {
    let turn = meta.spec_turn();
    let other = turn.spec_opposite();
    let mine = if slot == 0 {
        meta.spec_lose_kingside(turn).spec_lose_queenside(turn)
    } else if slot == 6 {
        meta.spec_lose_queenside(turn)
    } else if slot == 7 {
        meta.spec_lose_kingside(turn)
    } else {
        meta
    };
    if to.spec_rank() == other.spec_home_rank() && to.spec_file() == 7 {
        mine.spec_lose_kingside(other)
    } else if to.spec_rank() == other.spec_home_rank() && to.spec_file() == 0 {
        mine.spec_lose_queenside(other)
    } else {
        mine
    }
}

/// The metadata after the move: the rights as `moved_rights` says, the
/// en-passant target on the file of a pawn that was pushed two ranks and
/// cleared otherwise, and the turn passed on.
pub open spec fn moved_meta(meta: Metadata, slot: int, held: Location, to: Location) -> Metadata {
    moved_rights(meta, slot, to).spec_set_passant(
        if is_double_push(slot, held, to) {
            Some(to.spec_file())
        } else {
            None
        },
    ).spec_flip_turn()
}

impl Board {
    /// The board with `me` as the side that was to move, `other` as the side
    /// that waited, and `meta`.
    pub open spec fn with_sides(self, me: Player, other: Player, meta: Metadata) -> Board {
        match self.meta.spec_turn() {
            Color::White => Board { white: me, black: other, meta },
            Color::Black => Board { white: other, black: me, meta },
        }
    }

    /// The position after `mov`, whatever `mov` is: nothing asks whether the
    /// move is legal. A move of a slot that does not exist or holds no
    /// piece leaves the board as it is.
    pub open spec fn spec_apply(self, mov: Move) -> Board {
        let slot = mov.from.0 as int;
        if slot >= 16 {
            self
        } else {
            match self.spec_me().slots[slot] {
                None => self,
                Some(held) => self.with_sides(
                    moved_me(self.spec_me(), slot, held, mov.to, self.meta.spec_turn()),
                    moved_other(self.spec_opponent(), slot, held, mov.to),
                    moved_meta(self.meta, slot, held, mov.to),
                ),
            }
        }
    }

    /// Applies `mov` without asking whether it is legal.
    pub fn apply_unchecked(&self, mov: Move) -> (next: Board)
        ensures
            next == self.spec_apply(mov),
    {
        let pos = Positions::from_board(self);
        self._apply(mov, &pos)
    }

    /// Applies `mov` without asking whether it is legal, on a board whose
    /// snapshot is `pos`.
    pub fn _apply(&self, mov: Move, pos: &Positions) -> (next: Board)
        requires
            pos.opponent == occupancy(self.spec_opponent()),
        ensures
            next == self.spec_apply(mov),
    {
        if mov.from.0 >= 16 {
            return *self;
        }
        let turn = self.meta.turn();
        let other_color = turn.opposite();
        let mut me: Player = *self.me();
        let mut other: Player = *self.opponent();
        let held = match me.get(mov.from) {
            Some(held) => held,
            None => {
                return *self;
            },
        };
        let to = mov.to;
        let slot = mov.from.0;
        let pawn = slot >= 8 && !held.is_queen();

        let mut landing = held;
        landing.set(to);
        if pawn && to.rank() as isize == turn.promotion_rank() {
            landing.promote();
        }
        me.set(mov.from, Some(landing));
        if slot == 0 && held.rank() == to.rank() {
            if to.file() == held.file() + 2 {
                if let Some(rook) = self.me().get(PieceIndex(7)) {
                    let mut rook = rook;
                    rook.set(loc(to.rank(), to.file() - 1));
                    me.set(PieceIndex(7), Some(rook));
                }
            } else if to.file() + 2 == held.file() {
                if let Some(rook) = self.me().get(PieceIndex(6)) {
                    let mut rook = rook;
                    rook.set(loc(to.rank(), to.file() + 1));
                    me.set(PieceIndex(6), Some(rook));
                }
            }
        }
        if (pos.opponent & to.pos()) != 0 {
            other.remove(to);
        } else if pawn && held.file() != to.file() {
            other.remove(loc(held.rank(), to.file()));
        }
        let mut meta = self.meta;
        if slot == 0 {
            meta.lose_kingside(turn);
            meta.lose_queenside(turn);
        } else if slot == 6 {
            meta.lose_queenside(turn);
        } else if slot == 7 {
            meta.lose_kingside(turn);
        }
        if to.rank() == other_color.home_rank() && to.file() == 7 {
            meta.lose_kingside(other_color);
        } else if to.rank() == other_color.home_rank() && to.file() == 0 {
            meta.lose_queenside(other_color);
        }
        let double = pawn && (to.rank() == held.rank() + 2 || to.rank() + 2 == held.rank());
        meta.set_passant(
            if double {
                Some(to.file())
            } else {
                None
            },
        );
        meta.flip_turn();
        match turn {
            Color::White => Board { white: me, black: other, meta },
            Color::Black => Board { white: other, black: me, meta },
        }
    }
}

/// Whether `moves` holds a move of slot `slot` to the square of `to`.
pub open spec fn offers(moves: Seq<Move>, slot: int, to: Location) -> bool {
    exists|i: int| 0 <= i < moves.len() && is_offer(moves[i], slot, to)
}

/// Whether `mov` moves slot `slot` to the square of `to`.
pub open spec fn is_offer(mov: Move, slot: int, to: Location) -> bool {
    mov.from.0 == slot && mov.to.same_square(to)
}

impl Board {
    /// The move that takes the piece on `from` to `to`, if the rules let the
    /// side to move play it: a piece of that side stands on `from`, the
    /// generator offers the move, and if it is a castle the king touches no
    /// attacked square.
    pub open spec fn legal_move(self, from: Location, to: Location) -> Option<Move> {
        let slot = self.spec_me().find(from);
        let mov = Move { from: PieceIndex(slot as u8), to };
        if slot < 16 && offers(spec_moves(self), slot, to) && castle_safe(self, mov) {
            Some(mov)
        } else {
            None
        }
    }

    /// Moves the piece on `pair.1` to `pair.0` if that is a legal move of the
    /// side to move, and gives the position that results; `None` if it is
    /// not.
    pub fn apply(&self, pair: (Location, Location)) -> (next: Option<Board>)
        ensures
            next == (match self.legal_move(pair.1, pair.0) {
                Some(mov) => Some(self.spec_apply(mov)),
                None => None,
            }),
            self.wf() ==> (next matches Some(after) ==> after.wf()),
    {
        let to = pair.0;
        let from = pair.1;
        let pos = Positions::from_board(self);
        proof {
            self.spec_me().lemma_find_from(from, 0);
        }
        let piece = match find_in(self.me(), from) {
            Some(piece) => piece,
            None => {
                return None;
            },
        };
        let offered = _moves(self, &pos);
        let mut i: usize = 0;
        let mut found = false;
        while i < offered.len()
            invariant
                i <= offered.len(),
                found ==> offers(offered@, piece.index.0 as int, to),
                !found ==> forall|j: int|
                    0 <= j < i ==> !is_offer(#[trigger] offered@[j], piece.index.0 as int, to),
            decreases offered.len() - i,
        {
            let candidate = offered[i];
            if candidate.from.0 == piece.index.0 && candidate.to == to {
                found = true;
            }
            i += 1;
        }
        if !found {
            return None;
        }
        let mov = Move { from: piece.index, to };
        if !is_castle_safe(self, mov) {
            return None;
        }
        proof {
            if self.wf() {
                let i = choose|i: int|
                    0 <= i < offered@.len() && is_offer(offered@[i], piece.index.0 as int, to);
                assert(spec_moves(*self).contains(offered@[i]));
                crate::validity::lemma_move_keeps_wf(*self, offered@[i]);
                crate::validity::lemma_same_square_same_move(*self, offered@[i], mov);
            }
        }
        Some(self._apply(mov, &pos))
    }

    /// The moves of the piece that stands on `loc`, as far as the side to
    /// move may play them.
    pub open spec fn spec_moves_for_piece(self, loc: Location) -> Seq<Move> {
        spec_moves(self).filter(
            |mov: Move|
                mov.from.0 < 16 && slot_at(self.spec_me().slots[mov.from.0 as int], loc)
                    && castle_safe(self, mov),
        )
    }

    /// Lists the moves that the side to move may play with the piece on
    /// `loc`.
    pub fn moves_for_piece(&self, loc: Location) -> (list: Vec<Move>)
        ensures
            list@ == self.spec_moves_for_piece(loc),
    {
        let pos = Positions::from_board(self);
        let offered = _moves(self, &pos);
        let ghost keep = |mov: Move|
            mov.from.0 < 16 && slot_at(self.spec_me().slots[mov.from.0 as int], loc)
                && castle_safe(*self, mov);
        let mut list: Vec<Move> = Vec::new();
        let mut i: usize = 0;
        while i < offered.len()
            invariant
                i <= offered.len(),
                offered@ == spec_moves(*self),
                keep == (|mov: Move|
                    mov.from.0 < 16 && slot_at(self.spec_me().slots[mov.from.0 as int], loc)
                        && castle_safe(*self, mov)),
                list@ == offered@.take(i as int).filter(keep),
            decreases offered.len() - i,
        {
            let mov = offered[i];
            let of_piece = mov.from.0 < 16 && match self.me().get(mov.from) {
                Some(held) => held == loc,
                None => false,
            };
            let kept = of_piece && is_castle_safe(self, mov);
            proof {
                reveal(Seq::filter);
                assert(offered@.take(i + 1).drop_last() =~= offered@.take(i as int));
                assert(kept == keep(mov));
            }
            if kept {
                list.push(mov);
            }
            i += 1;
        }
        proof {
            assert(offered@.take(offered.len() as int) =~= offered@);
        }
        list
    }

    /// Plays the move that the search chooses, and gives the position that
    /// results; `None` when the side to move has no move to choose from.
    pub fn play_with(&self, params: &Params) -> (next: Option<Board>)
        ensures
            next is None <==> root_moves(*self).len() == 0,
            next matches Some(after) ==> exists|mov: Move, score: i32|
                is_search_result(*self, *params, Some((mov, score))) && after == self.spec_apply(
                    mov,
                ),
            self.wf() ==> (next matches Some(after) ==> after.wf()),
    {
        match search(self, params) {
            Some((mov, _)) => {
                proof {
                    if self.wf() {
                        spec_moves(*self).lemma_filter_contains_rev(
                            |mov: Move| castle_safe(*self, mov),
                            mov,
                        );
                        crate::validity::lemma_move_keeps_wf(*self, mov);
                    }
                }
                Some(self.apply_unchecked(mov))
            },
            None => None,
        }
    }

    /// The pieces that `player` holds in its first `n` slots, each with its
    /// square, in the order of the slots.
    pub open spec fn pieces_below(player: Player, n: nat) -> Seq<(Piece, Location)>
        decreases n,
    {
        if n == 0 {
            Seq::empty()
        } else {
            match player.slots[n - 1] {
                Some(held) => Self::pieces_below(player, (n - 1) as nat).push(
                    (Self::piece_in(player, n - 1), held),
                ),
                None => Self::pieces_below(player, (n - 1) as nat),
            }
        }
    }

    /// Lists the pieces of `color` that are on the board, each with its
    /// square, in the order of their slots.
    pub fn colored_pieces(&self, color: Color) -> (list: Vec<(Piece, Location)>)
        ensures
            list@ == Self::pieces_below(self.spec_side(color), 16),
    {
        let player = self.side(color);
        let mut list: Vec<(Piece, Location)> = Vec::new();
        let mut i: u8 = 0;
        while i < 16
            invariant
                i <= 16,
                *player == self.spec_side(color),
                list@ == Self::pieces_below(*player, i as nat),
            decreases 16 - i,
        {
            if let Some(held) = player.slots[i as usize] {
                let slot = PieceIndex(i);
                let kind = if held.is_queen() {
                    Kind::Queen
                } else {
                    slot.kind()
                };
                list.push((Piece { kind, color: player.color, index: slot }, held));
            }
            i += 1;
        }
        list
    }

    /// The board after the piece that `spec_search_for` finds on the square
    /// of `pos` has been taken off with all that its side has there.
    pub open spec fn spec_remove_piece(self, pos: Location) -> Board {
        if self.spec_me().find(pos) < 16 {
            self.with_sides(self.spec_me().spec_remove(pos), self.spec_opponent(), self.meta)
        } else if self.spec_opponent().find(pos) < 16 {
            self.with_sides(self.spec_me(), self.spec_opponent().spec_remove(pos), self.meta)
        } else {
            self
        }
    }

    /// Takes the piece on the square of `pos` off the board and gives it; on
    /// an empty square nothing changes.
    pub fn remove_piece(&mut self, pos: Location) -> (piece: Option<Piece>)
        ensures
            piece == old(self).spec_search_for(pos),
            *final(self) == old(self).spec_remove_piece(pos),
    {
        let turn = self.meta.turn();
        let mine = find_in(self.me(), pos);
        if mine.is_some() {
            match turn {
                Color::White => self.white.remove(pos),
                Color::Black => self.black.remove(pos),
            }
            return mine;
        }
        let theirs = find_in(self.opponent(), pos);
        if theirs.is_some() {
            match turn {
                Color::White => self.black.remove(pos),
                Color::Black => self.white.remove(pos),
            }
        }
        theirs
    }

    /// The number of the square of piece `at`, counting White's slots from 0
    /// and Black's from 16; 64 for a captured piece.
    pub open spec fn code_at(self, at: int) -> int {
        if at < 16 {
            square_code(self.white.slots[at])
        } else {
            square_code(self.black.slots[at - 16])
        }
    }

    /// Decides whether this is a position of the game as far as the squares
    /// go.
    pub fn is_valid(&self) -> (valid: bool)
        ensures
            valid == self.wf(),
    {
        if self.white.color != Color::White || self.black.color != Color::Black {
            return false;
        }
        let mut codes = player_squares(&self.white);
        let mut black = player_squares(&self.black);
        codes.append(&mut black);
        assert(codes@.len() == 32);
        assert forall|k: int| 0 <= k < 32 implies #[trigger] codes@[k] == self.code_at(k) by {}
        let mut i: usize = 0;
        while i < 32
            invariant
                i <= 32,
                codes@.len() == 32,
                forall|k: int| 0 <= k < 32 ==> #[trigger] codes@[k] == self.code_at(k),
                forall|a: int, b: int|
                    0 <= a < i && a < b < 32 && #[trigger] codes@[a] < 64 ==> codes@[a]
                        != #[trigger] codes@[b],
            decreases 32 - i,
        {
            let mut j: usize = i + 1;
            while j < 32
                invariant
                    i < 32,
                    i < j <= 32,
                    codes@.len() == 32,
                    forall|k: int| 0 <= k < 32 ==> #[trigger] codes@[k] == self.code_at(k),
                    forall|b: int|
                        i < b < j && codes@[i as int] < 64 ==> codes@[i as int]
                            != #[trigger] codes@[b],
                decreases 32 - j,
            {
                if codes[i] < 64 && codes[i] == codes[j] {
                    proof {
                        lemma_collision(*self, i as int, j as int);
                    }
                    return false;
                }
                j += 1;
            }
            i += 1;
        }
        proof {
            assert forall|a: int, b: int, sq: int|
                0 <= a < 16 && 0 <= b < 16 && a != b && #[trigger] stands(
                    self.white.slots[a],
                    sq,
                ) implies !#[trigger] stands(self.white.slots[b], sq) by {
                if stands(self.white.slots[b], sq) {
                    assert(codes@[a] == sq && codes@[b] == sq);
                }
            }
            assert forall|a: int, b: int, sq: int|
                0 <= a < 16 && 0 <= b < 16 && a != b && #[trigger] stands(
                    self.black.slots[a],
                    sq,
                ) implies !#[trigger] stands(self.black.slots[b], sq) by {
                if stands(self.black.slots[b], sq) {
                    assert(codes@[a + 16] == sq && codes@[b + 16] == sq);
                }
            }
            assert forall|a: int, b: int, sq: int|
                0 <= a < 16 && 0 <= b < 16 && #[trigger] stands(
                    self.white.slots[a],
                    sq,
                ) implies !#[trigger] stands(self.black.slots[b], sq) by {
                if stands(self.black.slots[b], sq) {
                    assert(codes@[a] == sq && codes@[b + 16] == sq);
                }
            }
        }
        true
    }

    /// The positions one move away, in the order of the moves.
    pub fn children(&self) -> (list: Vec<Board>)
        ensures
            list@ == crate::moves::spec_children(*self),
            self.wf() ==> forall|i: int| 0 <= i < list@.len() ==> (#[trigger] list@[i]).wf(),
    {
        proof {
            if self.wf() {
                crate::validity::lemma_children_wf(*self);
            }
        }
        crate::moves::children(self)
    }
}

/// The number of the square of a slot; 64 for a captured piece.
pub open spec fn square_code(slot: Option<Location>) -> int {
    match slot {
        Some(held) => held.square(),
        None => 64,
    }
}

/// Lists the numbers of the squares of the slots of `player`.
fn player_squares(player: &Player) -> (squares: Vec<u8>)
    ensures
        squares@.len() == 16,
        forall|k: int| 0 <= k < 16 ==> #[trigger] squares@[k] == square_code(player.slots[k]),
        squares_wf(*player),
{
    let mut squares: Vec<u8> = Vec::new();
    let mut i: usize = 0;
    while i < 16
        invariant
            i <= 16,
            squares@.len() == i,
            forall|k: int| 0 <= k < i ==> #[trigger] squares@[k] == square_code(player.slots[k]),
            forall|k: int|
                0 <= k < i ==> (#[trigger] player.slots[k] matches Some(held) ==> held.wf()),
        decreases 16 - i,
    {
        let code: u8 = match player.slots[i] {
            Some(held) => held.rank() * 8 + held.file(),
            None => 64,
        };
        squares.push(code);
        i += 1;
    }
    squares
}

/// Two pieces on one square make a board that is no position of the game.
proof fn lemma_collision(board: Board, a: int, b: int)
    requires
        0 <= a < b < 32,
        board.code_at(a) < 64,
        board.code_at(a) == board.code_at(b),
    ensures
        !board.wf(),
{
    let sq = board.code_at(a);
    if b < 16 {
        assert(stands(board.white.slots[a], sq) && stands(board.white.slots[b], sq));
    } else if a < 16 {
        assert(stands(board.white.slots[a], sq) && stands(board.black.slots[b - 16], sq));
    } else {
        assert(stands(board.black.slots[a - 16], sq) && stands(board.black.slots[b - 16], sq));
    }
}

/// Looks up the first piece of `player` on the square of `index`.
fn find_in(player: &Player, index: Location) -> (found: Option<Piece>)
    ensures
        found == (if player.find(index) < 16 {
            Some(Board::piece_in(*player, player.find(index)))
        } else {
            None
        }),
{
    let mut i: u8 = 0;
    while i < 16
        invariant
            i <= 16,
            player.find(index) == player.find_from(index, i as int),
        decreases 16 - i,
    {
        if let Some(held) = player.slots[i as usize] {
            if held == index {
                let slot = PieceIndex(i);
                let kind = if held.is_queen() {
                    Kind::Queen
                } else {
                    slot.kind()
                };
                return Some(Piece { kind, color: player.color, index: slot });
            }
        }
        i += 1;
    }
    None
}

} // verus!
