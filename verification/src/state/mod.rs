pub mod complete;
pub mod consts;
pub mod distinct;
pub mod fen;
pub mod laws;
pub mod movegen;
pub mod moves;
pub mod position;
pub mod valid;
