//! A chessboard: the rules that decide which moves are legal, and the
//! selection and turn protocol that turns picked squares into moves.
pub mod pieces;
pub mod board;
pub mod lemmas;
