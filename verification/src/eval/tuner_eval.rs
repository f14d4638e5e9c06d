//! Evaluation terms as linear functions of their parameters, used in tuning.
use vstd::prelude::*;
use crate::position::eval::{taper, taper_fits, taper_value};

verus! {

/// Number of tuned parameters.
pub const NUM_PARAMS: usize = 34;

/// The tuned parameters, midgame and endgame weight of each term.
#[derive(Copy, Clone, Debug)]
pub struct ParamContainer {
    pub doubled_mg: i16,
    pub doubled_eg: i16,
    pub isolated_mg: i16,
    pub isolated_eg: i16,
    pub passed_mg: i16,
    pub passed_eg: i16,
    pub shield_mg: i16,
    pub shield_eg: i16,
    pub open_file_mg: i16,
    pub open_file_eg: i16,
    pub pawn_mg: i16,
    pub pawn_eg: i16,
    pub knight_mg: i16,
    pub knight_eg: i16,
    pub bishop_mg: i16,
    pub bishop_eg: i16,
    pub rook_mg: i16,
    pub rook_eg: i16,
    pub queen_mg: i16,
    pub queen_eg: i16,
    pub king_mg: i16,
    pub king_eg: i16,
    pub outer_knight_mg: i16,
    pub outer_knight_eg: i16,
    pub outer_bishop_mg: i16,
    pub outer_bishop_eg: i16,
    pub outer_rook_mg: i16,
    pub outer_rook_eg: i16,
    pub outer_queen_mg: i16,
    pub outer_queen_eg: i16,
    pub outer_pawn_mg: i16,
    pub outer_pawn_eg: i16,
    pub outer_king_mg: i16,
    pub outer_king_eg: i16,
}

/// The parameters named by a flat list, in tuning order: the pawn structure
/// terms, material, then the outer terms pawn, knight, bishop, rook, queen,
/// king.
pub open spec fn params_from_list(x: [i16; 34]) -> ParamContainer {
    ParamContainer {
        doubled_mg: x[0],
        doubled_eg: x[1],
        isolated_mg: x[2],
        isolated_eg: x[3],
        passed_mg: x[4],
        passed_eg: x[5],
        shield_mg: x[6],
        shield_eg: x[7],
        open_file_mg: x[8],
        open_file_eg: x[9],
        pawn_mg: x[10],
        pawn_eg: x[11],
        knight_mg: x[12],
        knight_eg: x[13],
        bishop_mg: x[14],
        bishop_eg: x[15],
        rook_mg: x[16],
        rook_eg: x[17],
        queen_mg: x[18],
        queen_eg: x[19],
        king_mg: x[20],
        king_eg: x[21],
        outer_pawn_mg: x[22],
        outer_pawn_eg: x[23],
        outer_knight_mg: x[24],
        outer_knight_eg: x[25],
        outer_bishop_mg: x[26],
        outer_bishop_eg: x[27],
        outer_rook_mg: x[28],
        outer_rook_eg: x[29],
        outer_queen_mg: x[30],
        outer_queen_eg: x[31],
        outer_king_mg: x[32],
        outer_king_eg: x[33],
    }
}

impl From<[i16; 34]> for ParamContainer {
    fn from(x: [i16; 34]) -> (r: Self) {
        ParamContainer {
            doubled_mg: x[0],
            doubled_eg: x[1],
            isolated_mg: x[2],
            isolated_eg: x[3],
            passed_mg: x[4],
            passed_eg: x[5],
            shield_mg: x[6],
            shield_eg: x[7],
            open_file_mg: x[8],
            open_file_eg: x[9],
            pawn_mg: x[10],
            pawn_eg: x[11],
            knight_mg: x[12],
            knight_eg: x[13],
            bishop_mg: x[14],
            bishop_eg: x[15],
            rook_mg: x[16],
            rook_eg: x[17],
            queen_mg: x[18],
            queen_eg: x[19],
            king_mg: x[20],
            king_eg: x[21],
            outer_pawn_mg: x[22],
            outer_pawn_eg: x[23],
            outer_knight_mg: x[24],
            outer_knight_eg: x[25],
            outer_bishop_mg: x[26],
            outer_bishop_eg: x[27],
            outer_rook_mg: x[28],
            outer_rook_eg: x[29],
            outer_queen_mg: x[30],
            outer_queen_eg: x[31],
            outer_king_mg: x[32],
            outer_king_eg: x[33],
        }
    }
}

impl vstd::std_specs::convert::FromSpecImpl<[i16; 34]> for ParamContainer {
    open spec fn obeys_from_spec() -> bool {
        true
    }

    open spec fn from_spec(x: [i16; 34]) -> Self {
        params_from_list(x)
    }
}

impl From<ParamContainer> for [i16; 34] {
    fn from(x: ParamContainer) -> (r: Self) {
        [
            x.doubled_mg,
            x.doubled_eg,
            x.isolated_mg,
            x.isolated_eg,
            x.passed_mg,
            x.passed_eg,
            x.shield_mg,
            x.shield_eg,
            x.open_file_mg,
            x.open_file_eg,
            x.pawn_mg,
            x.pawn_eg,
            x.knight_mg,
            x.knight_eg,
            x.bishop_mg,
            x.bishop_eg,
            x.rook_mg,
            x.rook_eg,
            x.queen_mg,
            x.queen_eg,
            x.king_mg,
            x.king_eg,
            x.outer_pawn_mg,
            x.outer_pawn_eg,
            x.outer_knight_mg,
            x.outer_knight_eg,
            x.outer_bishop_mg,
            x.outer_bishop_eg,
            x.outer_rook_mg,
            x.outer_rook_eg,
            x.outer_queen_mg,
            x.outer_queen_eg,
            x.outer_king_mg,
            x.outer_king_eg,
        ]
    }
}

impl vstd::std_specs::convert::FromSpecImpl<ParamContainer> for [i16; 34] {
    open spec fn obeys_from_spec() -> bool {
        true
    }

    open spec fn from_spec(x: ParamContainer) -> Self {
        [
            x.doubled_mg,
            x.doubled_eg,
            x.isolated_mg,
            x.isolated_eg,
            x.passed_mg,
            x.passed_eg,
            x.shield_mg,
            x.shield_eg,
            x.open_file_mg,
            x.open_file_eg,
            x.pawn_mg,
            x.pawn_eg,
            x.knight_mg,
            x.knight_eg,
            x.bishop_mg,
            x.bishop_eg,
            x.rook_mg,
            x.rook_eg,
            x.queen_mg,
            x.queen_eg,
            x.king_mg,
            x.king_eg,
            x.outer_pawn_mg,
            x.outer_pawn_eg,
            x.outer_knight_mg,
            x.outer_knight_eg,
            x.outer_bishop_mg,
            x.outer_bishop_eg,
            x.outer_rook_mg,
            x.outer_rook_eg,
            x.outer_queen_mg,
            x.outer_queen_eg,
            x.outer_king_mg,
            x.outer_king_eg,
        ]
    }
}

/// Sum of `counts[i] * params[offset + 2 * i + phase_slot]` over the first `n` terms.
pub open spec fn weighted(counts: Seq<i16>, params: Seq<i16>, offset: int, slot: int, n: int) -> int
    decreases n,
{
    if n <= 0 {
        0
    } else {
        weighted(counts, params, offset, slot, n - 1) + counts[n - 1] * params[offset + 2 * (n - 1) + slot]
    }
}

/// Every partial sum and product of a term's midgame and endgame scores
/// stays within 16 bits.
pub open spec fn sums_fit(counts: Seq<i16>, params: Seq<i16>, offset: int, n: int) -> bool {
    forall|k: int, slot: int|
        0 <= k < n && 0 <= slot < 2 ==> {
            &&& i16::MIN <= #[trigger] weighted(counts, params, offset, slot, k + 1) <= i16::MAX
            &&& i16::MIN <= counts[k] * params[offset + 2 * k + slot] <= i16::MAX
        }
}

fn term_eval(phase: i16, counts: &[i16], params: &[i16; 34], offset: usize, n: usize) -> (r: i16)
    requires
        counts@.len() == n,
        offset + 2 * n <= 34,
        sums_fit(counts@, params@, offset as int, n as int),
        taper_fits(
            phase as int,
            weighted(counts@, params@, offset as int, 0, n as int),
            weighted(counts@, params@, offset as int, 1, n as int),
        ),
    ensures
        r == taper_value(
            phase as int,
            weighted(counts@, params@, offset as int, 0, n as int),
            weighted(counts@, params@, offset as int, 1, n as int),
        ) as i16,
{
    let mut mg: i16 = 0;
    let mut eg: i16 = 0;
    let mut i: usize = 0;
    while i < n
        invariant
            i <= n,
            counts@.len() == n,
            offset + 2 * n <= 34,
            sums_fit(counts@, params@, offset as int, n as int),
            mg == weighted(counts@, params@, offset as int, 0, i as int),
            eg == weighted(counts@, params@, offset as int, 1, i as int),
        decreases n - i,
    {
        proof {
            assert(i16::MIN <= weighted(counts@, params@, offset as int, 0, i + 1) <= i16::MAX);
            assert(i16::MIN <= weighted(counts@, params@, offset as int, 1, i + 1) <= i16::MAX);
        }
        mg = mg + counts[i] * params[offset + 2 * i];
        eg = eg + counts[i] * params[offset + 2 * i + 1];
        i += 1;
    }
    taper(phase as i32, mg, eg)
}

/// Pawn structure score: each of the five pawn terms weighted by its
/// midgame and endgame parameters, tapered by phase.
pub fn pawn_eval(phase: i16, pawns: [i16; 5], params: &[i16; 34]) -> (r: i16)
    requires
        sums_fit(pawns@, params@, 0, 5),
        taper_fits(phase as int, weighted(pawns@, params@, 0, 0, 5), weighted(pawns@, params@, 0, 1, 5)),
    ensures
        r == taper_value(phase as int, weighted(pawns@, params@, 0, 0, 5), weighted(pawns@, params@, 0, 1, 5))
            as i16,
{
    term_eval(phase, pawns.as_slice(), params, 0, 5)
}

/// Mobility score: each of the twelve mobility terms weighted by its
/// midgame and endgame parameters (from parameter 10 on), tapered by phase.
pub fn mob_eval(phase: i16, mob: [i16; 12], params: &[i16; 34]) -> (r: i16)
    requires
        sums_fit(mob@, params@, 10, 12),
        taper_fits(phase as int, weighted(mob@, params@, 10, 0, 12), weighted(mob@, params@, 10, 1, 12)),
    ensures
        r == taper_value(phase as int, weighted(mob@, params@, 10, 0, 12), weighted(mob@, params@, 10, 1, 12))
            as i16,
{
    term_eval(phase, mob.as_slice(), params, 10, 12)
}

} // verus!
