use vstd::prelude::*;
use crate::piece::Color;

verus! {

/// What a position holds beside its pieces, packed into one byte and a flag.
///
/// Bit 0 is set while White is to move. Bits 1 and 2 are the kingside castle
/// rights of White and Black, bits 3 and 4 their queenside rights. Bits 5 to
/// 7 hold the file of the en-passant target, which counts only while the
/// flag is set.
#[derive(Clone, Copy, Debug, PartialEq)]
pub struct Metadata(u8, bool);

pub const CURRENT_TURN: u8 = 0b0000_0001;

pub const KINGSIDE_CASTLE: u8 = 0b0000_0110;

pub const QUEENSIDE_CASTLE: u8 = 0b0001_1000;

pub const PASSANT_PAWN_FILE: u8 = 0b1110_0000;

/// The bit of the kingside castle right of `color`.
pub open spec fn spec_kingside_bit(color: Color) -> u8 {
    match color {
        Color::White => 0b0000_0010,
        Color::Black => 0b0000_0100,
    }
}

/// The bit of the queenside castle right of `color`.
pub open spec fn spec_queenside_bit(color: Color) -> u8 {
    match color {
        Color::White => 0b0000_1000,
        Color::Black => 0b0001_0000,
    }
}

#[verifier::when_used_as_spec(spec_kingside_bit)]
fn kingside_bit(color: Color) -> (bit: u8)
    ensures
        bit == spec_kingside_bit(color),
{
    match color {
        Color::White => 0b0000_0010,
        Color::Black => 0b0000_0100,
    }
}

#[verifier::when_used_as_spec(spec_queenside_bit)]
fn queenside_bit(color: Color) -> (bit: u8)
    ensures
        bit == spec_queenside_bit(color),
{
    match color {
        Color::White => 0b0000_1000,
        Color::Black => 0b0001_0000,
    }
}

/// Clearing one castle-right bit leaves that bit unset and touches no other
/// field of the byte.
proof fn lemma_clear(word: u8, gone: u8)
    by (bit_vector)
    requires
        gone == 2 || gone == 4 || gone == 8 || gone == 16,
    ensures
        (word & !gone) & gone == 0,
        (word & !gone) & 1 == word & 1,
        gone != 2 ==> (word & !gone) & 2 == word & 2,
        gone != 4 ==> (word & !gone) & 4 == word & 4,
        gone != 8 ==> (word & !gone) & 8 == word & 8,
        gone != 16 ==> (word & !gone) & 16 == word & 16,
        (word & !gone) >> 5 == word >> 5,
{
}

/// The bits of one field, picked out of the mask of its kind, are the bits
/// of the field; and the default byte has bit 0 and every right set.
proof fn lemma_fields(word: u8)
    by (bit_vector)
    ensures
        (word & 0b0000_0110) & 0b0000_0010 == word & 0b0000_0010,
        (word & 0b0000_0110) & 0b0000_0100 == word & 0b0000_0100,
        (word & 0b0001_1000) & 0b0000_1000 == word & 0b0000_1000,
        (word & 0b0001_1000) & 0b0001_0000 == word & 0b0001_0000,
        ((word & 7) << 5) & 0b1110_0000 == (word & 7) << 5,
        (word & 0b1110_0000) >> 5 == word >> 5,
        0b0001_1111u8 & 1 != 0,
        0b0001_1111u8 & 2 != 0,
        0b0001_1111u8 & 4 != 0,
        0b0001_1111u8 & 8 != 0,
        0b0001_1111u8 & 16 != 0,
{
}

/// Flipping bit 0 changes it and nothing else.
proof fn lemma_flip(word: u8)
    by (bit_vector)
    ensures
        ((word ^ 1) & 1 == 0) <==> (word & 1 != 0),
        (word ^ 1) & 2 == word & 2,
        (word ^ 1) & 4 == word & 4,
        (word ^ 1) & 8 == word & 8,
        (word ^ 1) & 16 == word & 16,
        (word ^ 1) >> 5 == word >> 5,
{
}

/// Writing a file into the three high bits, or clearing them, leaves the
/// five low bits.
proof fn lemma_store_file(word: u8, file: u8)
    by (bit_vector)
    ensures
        ((word & 0b0001_1111) | ((file & 7) << 5)) & 1 == word & 1,
        ((word & 0b0001_1111) | ((file & 7) << 5)) & 2 == word & 2,
        ((word & 0b0001_1111) | ((file & 7) << 5)) & 4 == word & 4,
        ((word & 0b0001_1111) | ((file & 7) << 5)) & 8 == word & 8,
        ((word & 0b0001_1111) | ((file & 7) << 5)) & 16 == word & 16,
        ((word & 0b0001_1111) | ((file & 7) << 5)) >> 5 == file % 8,
        (word & 0b0001_1111) & 1 == word & 1,
        (word & 0b0001_1111) & 2 == word & 2,
        (word & 0b0001_1111) & 4 == word & 4,
        (word & 0b0001_1111) & 8 == word & 8,
        (word & 0b0001_1111) & 16 == word & 16,
        (word >> 5) < 8,
{
}

impl Metadata {
    /// The side to move.
    pub closed spec fn spec_turn(self) -> Color {
        if self.0 & CURRENT_TURN != 0 {
            Color::White
        } else {
            Color::Black
        }
    }

    /// Whether `color` may still castle on the king's side.
    pub closed spec fn spec_kingside_castle(self, color: Color) -> bool {
        self.0 & spec_kingside_bit(color) != 0
    }

    /// Whether `color` may still castle on the queen's side.
    pub closed spec fn spec_queenside_castle(self, color: Color) -> bool {
        self.0 & spec_queenside_bit(color) != 0
    }

    /// The file of the en-passant target, if the last move was a two-square
    /// pawn push.
    pub closed spec fn spec_passant_file(self) -> Option<u8> {
        if self.1 {
            Some(self.0 >> 5)
        } else {
            None
        }
    }

    /// The metadata after the side to move has changed.
    pub closed spec fn spec_flip_turn(self) -> Metadata {
        Metadata(self.0 ^ CURRENT_TURN, self.1)
    }

    /// The metadata after `color` has lost its kingside castle right.
    pub closed spec fn spec_lose_kingside(self, color: Color) -> Metadata {
        Metadata(self.0 & !spec_kingside_bit(color), self.1)
    }

    /// The metadata after `color` has lost its queenside castle right.
    pub closed spec fn spec_lose_queenside(self, color: Color) -> Metadata {
        Metadata(self.0 & !spec_queenside_bit(color), self.1)
    }

    /// The metadata with the en-passant target set to `passant`, or cleared.
    pub closed spec fn spec_set_passant(self, passant: Option<u8>) -> Metadata {
        match passant {
            Some(file) => Metadata((self.0 & 0b0001_1111) | ((file & 7) << 5), true),
            None => Metadata(self.0 & 0b0001_1111, false),
        }
    }

    /// The metadata of the initial position: White to move, every castle
    /// right, no en-passant target.
    pub closed spec fn spec_default() -> Metadata {
        Metadata(0b0001_1111, false)
    }

    /// The byte and the flag that make up the value.
    pub closed spec fn raw(self) -> (u8, bool) {
        (self.0, self.1)
    }

    /// Two values with the same byte and flag are the same value.
    pub proof fn lemma_raw_injective(self, other: Metadata)
        requires
            self.raw() == other.raw(),
        ensures
            self == other,
    {
    }

    /// The byte and flag, for use as part of a key.
    pub fn bits(self) -> (raw: (u8, bool))
        ensures
            raw == self.raw(),
    {
        (self.0, self.1)
    }

    pub proof fn lemma_default()
        ensures
            Self::spec_default().spec_turn() == Color::White,
            forall|c: Color| Self::spec_default().spec_kingside_castle(c),
            forall|c: Color| Self::spec_default().spec_queenside_castle(c),
            Self::spec_default().spec_passant_file() is None,
    {
        lemma_fields(0);
    }

    /// What changing the side to move does: the turn passes to the other
    /// side and nothing else changes.
    pub proof fn lemma_flip_turn(self)
        ensures
            self.spec_flip_turn().spec_turn() == self.spec_turn().spec_opposite(),
            forall|c: Color|
                self.spec_flip_turn().spec_kingside_castle(c) == self.spec_kingside_castle(c),
            forall|c: Color|
                self.spec_flip_turn().spec_queenside_castle(c) == self.spec_queenside_castle(c),
            self.spec_flip_turn().spec_passant_file() == self.spec_passant_file(),
    {
        lemma_flip(self.0);
    }

    /// What losing a kingside right does: that right is gone and nothing
    /// else changes.
    pub proof fn lemma_lose_kingside(self, color: Color)
        ensures
            !self.spec_lose_kingside(color).spec_kingside_castle(color),
            self.spec_lose_kingside(color).spec_kingside_castle(color.spec_opposite())
                == self.spec_kingside_castle(color.spec_opposite()),
            forall|c: Color|
                self.spec_lose_kingside(color).spec_queenside_castle(c)
                    == self.spec_queenside_castle(c),
            self.spec_lose_kingside(color).spec_turn() == self.spec_turn(),
            self.spec_lose_kingside(color).spec_passant_file() == self.spec_passant_file(),
    {
        lemma_clear(self.0, spec_kingside_bit(color));
    }

    /// What losing a queenside right does: that right is gone and nothing
    /// else changes.
    pub proof fn lemma_lose_queenside(self, color: Color)
        ensures
            !self.spec_lose_queenside(color).spec_queenside_castle(color),
            self.spec_lose_queenside(color).spec_queenside_castle(color.spec_opposite())
                == self.spec_queenside_castle(color.spec_opposite()),
            forall|c: Color|
                self.spec_lose_queenside(color).spec_kingside_castle(c)
                    == self.spec_kingside_castle(c),
            self.spec_lose_queenside(color).spec_turn() == self.spec_turn(),
            self.spec_lose_queenside(color).spec_passant_file() == self.spec_passant_file(),
    {
        lemma_clear(self.0, spec_queenside_bit(color));
    }

    /// What setting the en-passant target does: the file is stored modulo 8,
    /// or the target is cleared, and nothing else changes.
    pub proof fn lemma_set_passant(self, passant: Option<u8>)
        ensures
            self.spec_set_passant(passant).spec_passant_file() == (match passant {
                Some(file) => Some((file % 8) as u8),
                None => None,
            }),
            forall|c: Color|
                self.spec_set_passant(passant).spec_kingside_castle(c)
                    == self.spec_kingside_castle(c),
            forall|c: Color|
                self.spec_set_passant(passant).spec_queenside_castle(c)
                    == self.spec_queenside_castle(c),
            self.spec_set_passant(passant).spec_turn() == self.spec_turn(),
    {
        let file = match passant {
            Some(file) => file,
            None => 0u8,
        };
        lemma_store_file(self.0, file);
    }

    /// A stored en-passant file is a file of the board.
    pub proof fn lemma_passant_file_on_board(self)
        ensures
            self.spec_passant_file() matches Some(file) ==> file < 8,
    {
        lemma_store_file(self.0, 0);
    }

    #[verifier::when_used_as_spec(spec_turn)]
    pub fn turn(self) -> (color: Color)
        ensures
            color == self.spec_turn(),
    {
        if self.0 & CURRENT_TURN != 0 {
            Color::White
        } else {
            Color::Black
        }
    }

    #[verifier::when_used_as_spec(spec_kingside_castle)]
    pub fn kingside_castle(self, color: Color) -> (right: bool)
        ensures
            right == self.spec_kingside_castle(color),
    {
        let castles: u8 = self.0 & KINGSIDE_CASTLE;
        proof {
            lemma_fields(self.0);
        }
        (castles & kingside_bit(color)) != 0
    }

    #[verifier::when_used_as_spec(spec_queenside_castle)]
    pub fn queenside_castle(self, color: Color) -> (right: bool)
        ensures
            right == self.spec_queenside_castle(color),
    {
        let castles: u8 = self.0 & QUEENSIDE_CASTLE;
        proof {
            lemma_fields(self.0);
        }
        (castles & queenside_bit(color)) != 0
    }

    /// Passes the turn to the other side.
    pub fn flip_turn(&mut self)
        ensures
            *final(self) == old(self).spec_flip_turn(),
            final(self).spec_turn() == old(self).spec_turn().spec_opposite(),
    {
        proof {
            self.lemma_flip_turn();
        }
        self.0 = self.0 ^ CURRENT_TURN;
    }

    /// Takes the kingside castle right from `color`, for good.
    pub fn lose_kingside(&mut self, color: Color)
        ensures
            *final(self) == old(self).spec_lose_kingside(color),
            !final(self).spec_kingside_castle(color),
    {
        proof {
            self.lemma_lose_kingside(color);
        }
        self.0 = self.0 & !kingside_bit(color);
    }

    /// Takes the queenside castle right from `color`, for good.
    pub fn lose_queenside(&mut self, color: Color)
        ensures
            *final(self) == old(self).spec_lose_queenside(color),
            !final(self).spec_queenside_castle(color),
    {
        proof {
            self.lemma_lose_queenside(color);
        }
        self.0 = self.0 & !queenside_bit(color);
    }

    /// Sets the en-passant target to the file `passant % 8`, or clears it.
    pub fn set_passant(&mut self, passant: Option<u8>)
        ensures
            *final(self) == old(self).spec_set_passant(passant),
            final(self).spec_passant_file() == (match passant {
                Some(file) => Some((file % 8) as u8),
                None => None,
            }),
    {
        proof {
            self.lemma_set_passant(passant);
        }
        if let Some(passant) = passant {
            let file: u8 = ((passant & 7) << 5) & PASSANT_PAWN_FILE;
            proof {
                lemma_fields(passant);
            }
            self.0 = (self.0 & 0b0001_1111) | file;
            self.1 = true;
        } else {
            self.0 = self.0 & 0b0001_1111;
            self.1 = false;
        }
    }

    #[verifier::when_used_as_spec(spec_passant_file)]
    pub fn passant_file(self) -> (passant: Option<u8>)
        ensures
            passant == self.spec_passant_file(),
            passant matches Some(file) ==> file < 8,
    {
        proof {
            self.lemma_passant_file_on_board();
        }
        if self.1 {
            let file: u8 = (self.0 & PASSANT_PAWN_FILE) >> 5;
            proof {
                lemma_fields(self.0);
            }
            Some(file)
        } else {
            None
        }
    }
}

impl Default for Metadata {
    fn default() -> (meta: Metadata)
        ensures
            meta == Metadata::spec_default(),
            meta.spec_turn() == Color::White,
            forall|c: Color| meta.spec_kingside_castle(c),
            forall|c: Color| meta.spec_queenside_castle(c),
            meta.spec_passant_file() is None,
    {
        proof {
            Metadata::lemma_default();
        }
        Metadata(0b0001_1111, false)
    }
}

} // verus!
