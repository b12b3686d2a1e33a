use vstd::prelude::*;
use crate::piece::Color;
use crate::search::Params;

verus! {

/// What a game between two engines is told from outside: the limits of a
/// search, and the parameters with which each side evaluates, beside those
/// with which the game is judged from neither side.
#[derive(Debug, Clone, Copy)]
pub struct Settings {
    pub recursion_limit: u64,
    pub time_limit: u128,
    pub memory_limit: usize,
    pub max_depth: i32,
    pub white_params: Params,
    pub black_params: Params,
    pub absolute_params: Params,
    pub nocapture: bool,
}

impl Settings {
    /// The parameters with which `color` evaluates.
    pub fn params(&self, color: Color) -> (params: &Params)
        ensures
            *params == (match color {
                Color::White => self.white_params,
                Color::Black => self.black_params,
            }),
    {
        match color {
            Color::White => &self.white_params,
            Color::Black => &self.black_params,
        }
    }
}

} // verus!
