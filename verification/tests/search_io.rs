use kimbo::eval::tuner_eval::{mob_eval, pawn_eval, ParamContainer};
use kimbo::io::errors::UciError;
use kimbo::io::fen::{
    board, castle_rights, get_castling_rights, get_pieces, get_sides, get_square, piece_idxs, piece_in,
    piece_out, pieces_to_squares,
};
use kimbo::io::inputs::sq_to_idx;
use kimbo::io::outputs::{idx_to_sq, u16_to_uci};
use kimbo::io::SearchStats;
use kimbo::position::attacks::{bishop_attacks, rook_attacks, xray_rook_attacks};
use kimbo::position::eval::{eval_factor, is_draw_by_50, is_draw_by_repetition, taper};
use kimbo::position::{CastleRights, GameState, MoveList};
use kimbo::search::pruning::{can_do_lmr, can_do_nmp, can_do_pruning, can_do_rfp, tt_prune};
use kimbo::search::sorting::{get_next_move, MoveScores};
use kimbo::search::timings::Times;
use kimbo::search::{is_mate_score, Stats};
use kimbo::tables::search::{Bound, HashResult};

#[test]
fn mate_scores() {
    assert!(is_mate_score(29_745));
    assert!(is_mate_score(-29_745));
    assert!(!is_mate_score(29_744));
    assert!(!is_mate_score(0));
}

#[test]
fn pruning_conditions() {
    let res = HashResult { key: 1, best_move: 2, score: 50, depth: 5, bound: Bound::EXACT };
    assert_eq!(tt_prune::<false>(&res, 4, -100, 100, 0), Some(50));
    assert_eq!(tt_prune::<true>(&res, 4, -100, 100, 0), None);
    assert_eq!(tt_prune::<false>(&res, 6, -100, 100, 0), None);
    assert_eq!(tt_prune::<false>(&res, 4, -100, 100, 91), None);
    let lower = HashResult { bound: Bound::LOWER, ..res };
    assert_eq!(tt_prune::<false>(&lower, 4, -100, 40, 0), Some(40));
    assert_eq!(tt_prune::<false>(&lower, 4, -100, 60, 0), None);
    let upper = HashResult { bound: Bound::UPPER, ..res };
    assert_eq!(tt_prune::<false>(&upper, 4, 60, 100, 0), Some(60));
    assert!(can_do_pruning::<false>(false, 100));
    assert!(!can_do_pruning::<false>(false, 29_800));
    assert!(!can_do_pruning::<true>(false, 100));
    assert!(can_do_nmp(true, 6, 3, 10, 10));
    assert!(!can_do_nmp(true, 5, 3, 10, 10));
    assert!(can_do_rfp(2, 0, 240));
    assert!(!can_do_rfp(2, 0, 239));
    assert!(!can_do_rfp(9, 0, 30_000));
    assert!(can_do_lmr::<false>(false, 2, 300, false, 2));
    assert!(!can_do_lmr::<true>(false, 2, 300, false, 2));
    assert!(!can_do_lmr::<false>(false, 1, 300, false, 2));
}

#[test]
fn times_movetime() {
    let t = Times::default();
    assert!(t.is_default());
    let t = Times { wtime: 60_000, btime: 30_000, winc: 0, binc: 0, moves_to_go: None };
    assert!(!t.is_default());
    assert_eq!(t.to_movetime(0, 24), 60_000 / 50);
    assert_eq!(t.to_movetime(1, 0), 15_000);
    let t = Times { moves_to_go: Some(10), ..t };
    assert_eq!(t.to_movetime(0, 24), 6_000);
}

#[test]
fn next_move_by_score() {
    let mut moves = MoveList::default();
    let mut scores = MoveScores::default();
    for (m, s) in [(11u16, 5i16), (22, 30), (33, 30), (44, -3)] {
        moves.push(m);
        scores.push(s);
    }
    assert_eq!(get_next_move(&mut moves, &mut scores), Some((22, 0, 30)));
    assert_eq!(get_next_move(&mut moves, &mut scores), Some((33, 1, 30)));
    assert_eq!(get_next_move(&mut moves, &mut scores), Some((11, 2, 5)));
    assert_eq!(get_next_move(&mut moves, &mut scores), Some((44, 3, -3)));
    assert_eq!(get_next_move(&mut moves, &mut scores), None);
}

#[test]
fn move_list_basics() {
    let mut l = MoveList::default();
    assert!(l.is_empty());
    l.push(5);
    l.push(6);
    assert_eq!(l.len(), 2);
    l.swap_unchecked(0, 1);
    assert_eq!(l.at(0), 6);
    l.clear();
    assert_eq!(l.len(), 0);
    let l2 = MoveList::new([9; 255], 3);
    assert_eq!(l2.len(), 3);
    assert_eq!(CastleRights::sides(1), 3);
}

#[test]
fn slider_attacks() {
    // rook on a1 with a blocker on a4 and b1
    let occ = (1u64 << 24) | (1u64 << 1) | 1;
    assert_eq!(rook_attacks(0, occ), (1u64 << 8) | (1u64 << 16) | (1u64 << 24) | (1u64 << 1));
    // bishop on a1 on an empty board sees the long diagonal
    assert_eq!(bishop_attacks(0, 1), 0x8040_2010_0804_0200);
    // x-ray through the a4 blocker reaches up the file
    assert_eq!(
        xray_rook_attacks(occ, 1u64 << 24, 0),
        (1u64 << 32) | (1u64 << 40) | (1u64 << 48) | (1u64 << 56)
    );
}

#[test]
fn tapering() {
    assert_eq!(taper(24, 100, 0), 100);
    assert_eq!(taper(0, 100, 50), 50);
    assert_eq!(taper(12, 100, 50), 75);
    assert_eq!(taper(1, -5, 0), 0);
    assert_eq!(eval_factor(24, [300, 100], [0, 0]), 200);
}

#[test]
fn tuned_terms() {
    let mut params = [0i16; 34];
    params[0] = 10;
    params[1] = 20;
    params[10] = 3;
    params[11] = 6;
    assert_eq!(pawn_eval(24, [2, 0, 0, 0, 0], &params), 20);
    assert_eq!(pawn_eval(0, [2, 0, 0, 0, 0], &params), 40);
    let mut mob = [0i16; 12];
    mob[0] = 4;
    assert_eq!(mob_eval(12, mob, &params), 18);
    let p = ParamContainer::new();
    assert_eq!(p.passed_eg, 30);
    assert_eq!(ParamContainer::old_values().passed_eg, 70);
}

#[test]
fn square_names() {
    assert_eq!(idx_to_sq(0), "a1");
    assert_eq!(idx_to_sq(63), "h8");
    assert_eq!(idx_to_sq(28), "e4");
    // from e2 (low bits) to e4
    assert_eq!(u16_to_uci(&(12 | (28 << 6))), "e2e4 ");
    assert_eq!(u16_to_uci(&(52 | (60 << 6) | 0xB000)), "e7e8q ");
    assert_eq!(sq_to_idx("e4"), Ok(28));
    assert_eq!(sq_to_idx("z4"), Err(UciError::Move));
    assert_eq!(sq_to_idx("ex"), Err(UciError::Value));
    assert_eq!(UciError::Fen.message(), "error parsing 'fen' string");
}

#[test]
fn record_fields() {
    assert_eq!(castle_rights(0), "-");
    assert_eq!(castle_rights(15), "KQkq");
    assert_eq!(castle_rights(5), "Kk");
    assert_eq!(get_castling_rights("-").ok(), Some(0));
    assert_eq!(get_castling_rights("KQkq").ok(), Some(15));
    assert!(get_castling_rights("KX").is_err());
    assert_eq!(get_square("-").ok(), Some(0));
    assert_eq!(get_square("e3").ok(), Some(20));
    assert_eq!(get_square("E6").ok(), Some(44));
    assert!(get_square("e").is_err());
    assert!(get_square("x3").is_err());
    assert_eq!(piece_out((1, 4)), 'q');
    assert_eq!(piece_in('N').ok(), Some((0, 1)));
    assert_eq!(piece_in('k').ok(), Some((1, 5)));
    assert!(piece_in('x').is_err());
    let mut pieces = [[0u64; 6]; 2];
    pieces[0][0] = 1 << 8;
    pieces[1][5] = 1 << 60;
    assert_eq!(get_sides(pieces), [1 << 8, 1 << 60]);
    let sq = pieces_to_squares(pieces);
    assert_eq!(sq[8], 0);
    assert_eq!(sq[60], 5);
    assert_eq!(sq[0], 6);
}

#[test]
fn search_stats_new() {
    let s = SearchStats::new(5, 100, 2000, vec![1, 2]);
    assert_eq!(s.depth_reached, 5);
    assert_eq!(s.time_to_depth, 100);
    assert_eq!(s.nodes_to_depth, 2000);
    assert_eq!(s.pv, vec![1, 2]);
}

#[test]
fn board_field_squares() {
    let l = piece_idxs("rnbqkbnr/pppppppp/8/8/8/8/PPPPPPPP/RNBQKBNR").ok().expect("well formed");
    assert_eq!(l[0][0], vec![15, 14, 13, 12, 11, 10, 9, 8]);
    assert_eq!(l[0][3], vec![7, 0]);
    assert_eq!(l[0][5], vec![4]);
    assert_eq!(l[1][3], vec![63, 56]);
    assert_eq!(l[1][4], vec![59]);
    assert_eq!(l[1][0], vec![55, 54, 53, 52, 51, 50, 49, 48]);
    let p = get_pieces("rnbqkbnr/pppppppp/8/8/8/8/PPPPPPPP/RNBQKBNR").ok().expect("well formed");
    assert_eq!(p[0][0], 0xFF00);
    assert_eq!(p[1][0], 0x00FF_0000_0000_0000);
    assert_eq!(p[0][5], 1 << 4);
    assert_eq!(p[1][4], 1 << 59);
    assert_eq!(p[0][1], (1 << 1) | (1 << 6));
}

#[test]
fn board_field_errors() {
    // seven rows
    assert!(piece_idxs("8/8/8/8/8/8/8").is_err());
    // a letter that is no piece
    assert!(piece_idxs("8/8/8/8/8/8/8/7x").is_err());
    // rows covering nine and seven squares
    assert!(piece_idxs("8/8/8/8/8/8/8/k8").is_err());
    assert!(get_pieces("8/8/8/8/8/8/8/7").is_err());
    // a digit that is not an ASCII digit
    assert!(get_pieces("8/8/8/8/8/8/8/\u{663}5").is_err());
    assert!(piece_idxs("8/8/8/8/8/8/8/8").is_ok());
}

#[test]
fn board_field_round_trip() {
    for field in [
        "rnbqkbnr/pppppppp/8/8/8/8/PPPPPPPP/RNBQKBNR",
        "r3k2r/p1ppqpb1/bn2pnp1/3PN3/1p2P3/2N2Q1p/PPPBBPPP/R3K2R",
        "8/2p5/3p4/KP5r/1R3p1k/8/4P1P1/8",
    ] {
        let pieces = get_pieces(field).ok().expect("well formed");
        let text = board(pieces_to_squares(pieces), get_sides(pieces));
        assert_eq!(text, field);
    }
    let mut sqs = [6u8; 64];
    sqs[0] = 5;
    sqs[63] = 5;
    assert_eq!(board(sqs, [1, 1 << 63]), "7k/8/8/8/8/8/8/K7");
}

#[test]
fn stats_reset() {
    let mut s = Stats::default();
    assert_eq!(s.node_count, 0);
    assert_eq!(s.seldepth, 0);
    s.node_count = 10;
    s.seldepth = 4;
    s.reset();
    assert_eq!(s.node_count, 0);
    assert_eq!(s.seldepth, 0);
}

#[test]
fn params_list_conversions() {
    let mut x = [0i16; 34];
    for (i, v) in x.iter_mut().enumerate() {
        *v = i as i16 + 1;
    }
    let p = ParamContainer::from(x);
    assert_eq!(p.doubled_mg, 1);
    assert_eq!(p.king_eg, 22);
    assert_eq!(p.outer_pawn_mg, 23);
    assert_eq!(p.outer_knight_mg, 25);
    assert_eq!(p.outer_king_eg, 34);
    let back: [i16; 34] = p.into();
    assert_eq!(back, x);
}

fn state_with_hash(zobrist: u64) -> GameState {
    GameState {
        m: 0,
        moved_pc: 0,
        captured_pc: 0,
        castle_rights: 0,
        halfmove_clock: 0,
        en_passant_sq: 0,
        phase: 0,
        zobrist,
        pawnhash: 0,
        mat_mg: [0, 0],
        mat_eg: [0, 0],
        pst_mg: [0, 0],
        pst_eg: [0, 0],
    }
}

#[test]
fn draws() {
    let mut stack: Vec<GameState> = (0..8).map(|i| state_with_hash(i + 1)).collect();
    stack[6].zobrist = 99;
    stack[2].zobrist = 99;
    stack[5].zobrist = 99;
    // entries 6 and 2 repeat the position; entry 5 is the other side to move
    assert!(is_draw_by_repetition(&stack, 99, 8, 0, 3));
    assert!(!is_draw_by_repetition(&stack, 99, 8, 0, 4));
    assert!(is_draw_by_repetition(&stack, 99, 8, 0, 2));
    // the halfmove clock reaches back to entry 5 only
    assert!(!is_draw_by_repetition(&stack, 99, 3, 0, 3));
    assert!(is_draw_by_repetition(&stack, 99, 3, 0, 2));
    // no repetition at all is never a draw
    assert!(!is_draw_by_repetition(&stack, 42, 8, 0, 1));
    // a null move on the board, or fewer than six moves, rule it out
    assert!(!is_draw_by_repetition(&stack, 99, 8, 1, 2));
    assert!(!is_draw_by_repetition(&stack[..5].to_vec(), 99, 8, 0, 2));
    assert!(is_draw_by_50(0, 100));
    assert!(!is_draw_by_50(0, 99));
    assert!(!is_draw_by_50(1, 120));
}
