//! A chess engine core: a bit-packed board, a bitboard move generator, the
//! state transition for one move, a material and positional evaluator, and a
//! depth-bounded alpha-beta search.
//!
//! The library's own logic is verified with Verus: each function states what
//! it returns, over the models in `moves::rays`, `moves::squares`, `board`
//! and `search`, and is proved to meet it. The list of positions in
//! `frontier` is a `SmallVec` and the cache in `memo` an `LruCache`; what
//! those two crates do is stated there and taken on trust.
pub mod piece;
pub mod location;
pub mod metadata;
pub mod board;
pub mod moves;
pub mod heuristic;
pub mod search;
pub mod frontier;
pub mod memo;
pub mod history;
pub mod validity;
pub mod play;
pub mod select;
pub mod settings;

pub use crate::board::Board;
pub use crate::board::Player;
pub use crate::heuristic::material;
pub use crate::location::loc;
pub use crate::location::Location;
pub use crate::metadata::Metadata;
pub use crate::moves::bishop::bishop_moves;
pub use crate::moves::children;
pub use crate::moves::king::is_check;
pub use crate::moves::king::king_moves;
pub use crate::moves::knight::knight_moves;
pub use crate::moves::move_cache::MoveCache;
pub use crate::moves::moves;
pub use crate::moves::pawn::pawn_moves;
pub use crate::moves::positions::Positions;
pub use crate::moves::queen::queen_moves;
pub use crate::moves::rook::rook_moves;
pub use crate::moves::Move;
pub use crate::piece::Color;
pub use crate::piece::Kind;
pub use crate::piece::Piece;
pub use crate::piece::PieceIndex;
pub use crate::search::minimax;
pub use crate::search::search;
pub use crate::search::Params;
pub use crate::search::ValueTable;
