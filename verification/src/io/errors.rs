//! Errors of the interface.
use vstd::prelude::*;

verus! {

/// What a command of the interface failed on.
#[derive(Debug, Clone, Copy, PartialEq, Eq, Structural)]
pub enum UciError {
    Value,
    Display,
    SetOption,
    Go,
    Position,
    Move,
    Fen,
}

impl UciError {
    /// Description of the error.
    pub fn message(&self) -> (r: &'static str)
        ensures
            r@ == match self {
                UciError::Value => "error parsing value as integer"@,
                UciError::Display => "error parsing 'display' command"@,
                UciError::SetOption => "error parsing 'setoption' command"@,
                UciError::Go => "error parsing 'go' command"@,
                UciError::Position => "error parsing 'position' command"@,
                UciError::Move => "error parsing 'moves' list"@,
                UciError::Fen => "error parsing 'fen' string"@,
            },
    {
        match self {
            UciError::Value => "error parsing value as integer",
            UciError::Display => "error parsing 'display' command",
            UciError::SetOption => "error parsing 'setoption' command",
            UciError::Go => "error parsing 'go' command",
            UciError::Position => "error parsing 'position' command",
            UciError::Move => "error parsing 'moves' list",
            UciError::Fen => "error parsing 'fen' string",
        }
    }
}

} // verus!
