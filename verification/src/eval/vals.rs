//! Parameter sets.
use vstd::prelude::*;
use super::tuner_eval::ParamContainer;

verus! {

impl ParamContainer {
    /// A parameter set with every weight zero.
    pub open spec fn zero() -> ParamContainer {
        ParamContainer {
            doubled_mg: 0,
            doubled_eg: 0,
            isolated_mg: 0,
            isolated_eg: 0,
            passed_mg: 0,
            passed_eg: 0,
            shield_mg: 0,
            shield_eg: 0,
            open_file_mg: 0,
            open_file_eg: 0,
            pawn_mg: 0,
            pawn_eg: 0,
            knight_mg: 0,
            knight_eg: 0,
            bishop_mg: 0,
            bishop_eg: 0,
            rook_mg: 0,
            rook_eg: 0,
            queen_mg: 0,
            queen_eg: 0,
            king_mg: 0,
            king_eg: 0,
            outer_knight_mg: 0,
            outer_knight_eg: 0,
            outer_bishop_mg: 0,
            outer_bishop_eg: 0,
            outer_rook_mg: 0,
            outer_rook_eg: 0,
            outer_queen_mg: 0,
            outer_queen_eg: 0,
            outer_pawn_mg: 0,
            outer_pawn_eg: 0,
            outer_king_mg: 0,
            outer_king_eg: 0,
        }
    }

    fn zeroed() -> (r: Self)
        ensures
            r == Self::zero(),
    {
        ParamContainer {
            doubled_mg: 0,
            doubled_eg: 0,
            isolated_mg: 0,
            isolated_eg: 0,
            passed_mg: 0,
            passed_eg: 0,
            shield_mg: 0,
            shield_eg: 0,
            open_file_mg: 0,
            open_file_eg: 0,
            pawn_mg: 0,
            pawn_eg: 0,
            knight_mg: 0,
            knight_eg: 0,
            bishop_mg: 0,
            bishop_eg: 0,
            rook_mg: 0,
            rook_eg: 0,
            queen_mg: 0,
            queen_eg: 0,
            king_mg: 0,
            king_eg: 0,
            outer_knight_mg: 0,
            outer_knight_eg: 0,
            outer_bishop_mg: 0,
            outer_bishop_eg: 0,
            outer_rook_mg: 0,
            outer_rook_eg: 0,
            outer_queen_mg: 0,
            outer_queen_eg: 0,
            outer_pawn_mg: 0,
            outer_pawn_eg: 0,
            outer_king_mg: 0,
            outer_king_eg: 0,
        }
    }

    /// The earlier pawn structure weights; the other weights are zero.
    pub fn old_values() -> (r: Self)
        ensures
            r == (ParamContainer {
                doubled_mg: 0,
                doubled_eg: -5i16,
                isolated_mg: -20i16,
                isolated_eg: -5i16,
                passed_mg: -5i16,
                passed_eg: 70,
                shield_mg: 5,
                shield_eg: 2,
                open_file_mg: -10i16,
                open_file_eg: 5,
                ..Self::zero()
            }),
    {
        ParamContainer {
            doubled_mg: 0,
            doubled_eg: -5i16,
            isolated_mg: -20i16,
            isolated_eg: -5i16,
            passed_mg: -5i16,
            passed_eg: 70,
            shield_mg: 5,
            shield_eg: 2,
            open_file_mg: -10i16,
            open_file_eg: 5,
            ..Self::zeroed()
        }
    }

    /// The current pawn structure weights; the other weights are zero.
    pub fn new() -> (r: Self)
        ensures
            r == (ParamContainer {
                doubled_mg: 0,
                doubled_eg: -15i16,
                isolated_mg: -7i16,
                isolated_eg: -7i16,
                passed_mg: -7i16,
                passed_eg: 30,
                shield_mg: 0,
                shield_eg: 4,
                open_file_mg: -25i16,
                open_file_eg: 11,
                ..Self::zero()
            }),
    {
        ParamContainer {
            doubled_mg: 0,
            doubled_eg: -15i16,
            isolated_mg: -7i16,
            isolated_eg: -7i16,
            passed_mg: -7i16,
            passed_eg: 30,
            shield_mg: 0,
            shield_eg: 4,
            open_file_mg: -25i16,
            open_file_eg: 11,
            ..Self::zeroed()
        }
    }
}

} // verus!
