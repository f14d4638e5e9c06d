//! Text read into the engine's encodings.
use vstd::prelude::*;
use super::errors::UciError;

verus! {

/// Index of a square named by a file letter and a rank digit, or the error
/// for the name: a bad file is a move error, a bad rank a value error.
pub open spec fn sq_to_idx_spec(sq: Seq<char>) -> Result<u16, UciError> {
    let f = sq[0];
    if !('a' <= f <= 'h') {
        Err(UciError::Move)
    } else if !('0' <= sq[1] <= '9') {
        Err(UciError::Value)
    } else {
        Ok((8 * ((sq[1] as u32) - 49) + ((f as u32) - 97)) as u16)
    }
}

/// Reads a square name such as `e4`.
pub fn sq_to_idx(sq: &str) -> (r: Result<u16, UciError>)
    requires
        sq@.len() >= 2,
        '0' <= sq@[1] <= '9' ==> sq@[1] != '0',
    ensures
        r == sq_to_idx_spec(sq@),
{
    let f = sq.get_char(0);
    if !('a' <= f && f <= 'h') {
        return Err(UciError::Move);
    }
    let c = sq.get_char(1);
    if !('0' <= c && c <= '9') {
        return Err(UciError::Value);
    }
    let rank = (c as u32) - 49;
    Ok((8 * rank + ((f as u32) - 97)) as u16)
}

} // verus!
