use kimbo::engine::consts::Score;
use kimbo::engine::limits::{abort_check, Limits};
use kimbo::engine::transposition::{CuttoffType, TTEntry, TT};
use kimbo::engine::util::{u16_to_uci, PvLine};
use kimbo::engine::zobrist::{init_zobrist, ZobristVals as EngineZobrist};
use kimbo::hash::perft::PerftTT;
use kimbo::perft::transposition::PerftTT as ResultPerftTT;
use kimbo::perft::PerftStats;
use kimbo::position::zobrist::{initialise_pawnhash, initialise_zobrist, ZobristVals};
use kimbo::state::consts::Fens;
use kimbo::state::position::Position;
use std::sync::atomic::AtomicBool;
use std::sync::Arc;

#[test]
fn score_constants() {
    assert_eq!(Score::MATE, 29_744);
}

#[test]
fn limits_settings() {
    let mut l = Limits::new(Arc::new(AtomicBool::new(false)));
    assert_eq!(l.depth(), 0);
    l.set_depth(7);
    assert_eq!(l.depth(), 7);
    assert!(!l.aborting());
    l.set_nodes(1024);
    // only every 1024th node is checked
    assert!(!l.should_abort(1023));
    assert!(l.should_abort(1024));
    assert!(l.aborting());
    l.reset();
    assert!(!l.aborting());
    l.allocate_time(10_000, 100, None);
    l.set_nodes(u64::MAX);
}

#[test]
fn abort_rule() {
    assert!(abort_check(2048, 5, 1000, 10));
    assert!(abort_check(2048, 1001, 1000, u64::MAX));
    assert!(!abort_check(2048, 1000, 1000, u64::MAX));
    assert!(!abort_check(2049, 5000, 1000, 0));
}

#[test]
fn tt_entry_roundtrip_swaps_move_and_score() {
    let mut e = TTEntry::default();
    e.set_data(0xBEEF, 123, 0x0456, 9, 3, CuttoffType::BETA);
    let r = e.get_data();
    assert_eq!(r.key, 0xBEEF);
    assert_eq!(r.best_move, 123);
    assert_eq!(r.score, 0x0456);
    assert_eq!(r.depth, 9);
    assert_eq!(r.age, 3);
    assert_eq!(r.cutoff_type, CuttoffType::BETA);
}

#[test]
fn tt_push_get() {
    let mut t = TT::new(64 * 8);
    let z: u64 = 0x4242_0000_0000_0003;
    let mut collision = false;
    assert!(t.get(z, &mut collision).is_none());
    assert!(!collision);
    t.push(z, 55, 0x0777, 4, 1, CuttoffType::EXACT);
    let r = t.get(z, &mut collision).expect("stored");
    assert_eq!(r.key, 0x4242);
    assert_eq!(r.best_move, 55);
    assert!(!collision);
    assert!(t.get(0x4343_0000_0000_0003, &mut collision).is_none());
    assert!(collision);
}

#[test]
fn perft_tables_read_after_write() {
    let mut t = PerftTT::new(128 * 4);
    assert_eq!(t.get(0x1234_5678_9ABC_DEF0, 3), None);
    t.push(0x1234_5678_9ABC_DEF0, 97_862, 3);
    assert_eq!(t.get(0x1234_5678_9ABC_DEF0, 3), Some(97_862));
    assert_eq!(t.get(0x1234_5678_9ABC_DEF0, 4), None);
    assert_eq!(t.filled, 1);

    let mut u = ResultPerftTT::new(128 * 4);
    assert!(u.get(77, 2).is_none());
    u.push(77, 400, 2);
    assert_eq!(u.get(77, 2).expect("stored").count, 400);
}

#[test]
fn perft_stats_reset() {
    let mut s = PerftStats::default();
    s.reset();
    assert_eq!(s.tt_hits(), 0);
}

#[test]
fn zobrist_values_nonzero() {
    let z = ZobristVals::default();
    assert_ne!(z.side_hash(), 0);
    assert_ne!(z.piece_hash(63, 1, 5), 0);
    assert_eq!(z.castle_hash(0b0011, 0b0100), 0);
    assert_ne!(z.castle_hash(0b1111, 0b0100), 0);
    assert_ne!(z.en_passant_hash(7), 0);
    // drawn values, not the bounds of their range
    assert_ne!(z.piece_hash(0, 0, 0), 1);
    assert_ne!(z.piece_hash(0, 0, 0), z.piece_hash(1, 0, 0));
    assert_ne!(z.en_passant_hash(0), z.en_passant_hash(1));
    let e = EngineZobrist::default();
    assert_eq!(e.side_hash(), 0);
    assert_ne!(e.castle_hash(1, 1), 0);
}

#[test]
fn uci_notation() {
    let pos = Position::from_fen(Fens::STARTPOS).expect("hard coded");
    // from e2 (12), to e4 (28)
    assert_eq!(u16_to_uci(&pos, 12 | (28 << 6)), "e2e4 ");
    assert_eq!(u16_to_uci(&pos, 0xB000 | 52 | (60 << 6)), "e7e8q ");
    let frc = Position::from_fen("bqnb1rkr/pp3ppp/3ppn2/2p5/5P2/P2P4/NPP1P1PP/BQ1BNRKR w HFhf - 2 9")
        .expect("hard coded");
    // king side castling written as king takes rook
    assert_eq!(u16_to_uci(&frc, 0x2000 | 6 | (6 << 6)), "g1h1");
}

#[test]
fn pv_line_update() {
    let pos = Position::from_fen(Fens::STARTPOS).expect("hard coded");
    let mut pv = PvLine::with_capacity(4);
    assert_eq!(pv.first(), 0);
    let mut sub = PvLine::default();
    sub.update(52 | (36 << 6), &mut PvLine::default());
    pv.update(12 | (28 << 6), &mut sub);
    assert_eq!(pv.first(), 12 | (28 << 6));
    assert_eq!(sub.first(), 0);
    assert_eq!(pv.to_string(&pos), "e2e4 e7e5 ");
    pv.clear();
    assert_eq!(pv.first(), 0);
}

#[test]
fn position_hashes() {
    let z = ZobristVals::default();
    let empty = [[0u64; 6]; 2];
    assert_eq!(initialise_zobrist(&empty, 0, 0, 1, &z), 0);
    assert_eq!(initialise_zobrist(&empty, 0, 0, 0, &z), z.side_hash());
    let mut pieces = [[0u64; 6]; 2];
    pieces[0][1] = (1 << 1) | (1 << 6);
    pieces[1][5] = 1 << 60;
    let placed = z.piece_hash(1, 0, 1) ^ z.piece_hash(6, 0, 1) ^ z.piece_hash(60, 1, 5);
    assert_eq!(initialise_zobrist(&pieces, 0, 0, 1, &z), placed);
    let rights = z.castle_hash(15, 1) ^ z.castle_hash(15, 4);
    assert_eq!(initialise_zobrist(&pieces, 0b0101, 0, 1, &z), placed ^ rights);
    assert_eq!(initialise_zobrist(&pieces, 0, 20, 1, &z), placed ^ z.en_passant_hash(4));
    // rights above the four castling rights hash to nothing
    assert_eq!(initialise_zobrist(&pieces, 0b0001_0000, 0, 1, &z), placed);
    // only pawns and kings count in the pawn hash
    pieces[0][0] = 1 << 12;
    assert_eq!(initialise_pawnhash(&pieces, &z), z.piece_hash(12, 0, 0) ^ z.piece_hash(60, 1, 5));
    let e = EngineZobrist::default();
    assert_eq!(
        init_zobrist(&pieces, 0b1000, 0, &e),
        e.piece_hash(12, 0, 0) ^ e.piece_hash(1, 0, 1) ^ e.piece_hash(6, 0, 1) ^ e.piece_hash(60, 1, 5)
            ^ e.castle_hash(15, 8)
    );
}
