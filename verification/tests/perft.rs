use kimbo::engine::util::perft;
use kimbo::state::consts::Fens;
use kimbo::state::position::Position;
use std::time::Instant;


/// Mix of FRC and normal fens.
const FENS: [(&str, u8, u64); 12] = [
    (Fens::STARTPOS, 6, 119_060_324),
    (Fens::KIWIPETE, 5, 193_690_690),
    ("8/2p5/3p4/KP5r/1R3p1k/8/4P1P1/8 w - -", 7, 178_633_661),
    ("r3k2r/Pppp1ppp/1b3nbN/nP6/BBP1P3/q4N2/Pp1P2PP/R2Q1RK1 w kq -", 6, 706_045_033),
    ("r2q1rk1/pP1p2pp/Q4n2/bbp1p3/Np6/1B3NBn/pPPP1PPP/R3K2R b KQ -", 6, 706_045_033),
    ("rnbq1k1r/pp1Pbppp/2p5/8/2B5/8/PPP1NnPP/RNBQK2R w KQ - 1 8", 5, 89_941_194),
    ("bqnb1rkr/pp3ppp/3ppn2/2p5/5P2/P2P4/NPP1P1PP/BQ1BNRKR w HFhf - 2 9", 5, 8_146_062),
    ("2nnrbkr/p1qppppp/8/1ppb4/6PP/3PP3/PPP2P2/BQNNRBKR w HEhe - 1 9", 5, 16_253_601),
    ("b1q1rrkb/pppppppp/3nn3/8/P7/1PPP4/4PPPP/BQNNRKRB w GE - 1 9", 6, 177_654_692),
    ("qbbnnrkr/2pp2pp/p7/1p2pp2/8/P3PP2/1PPP1KPP/QBBNNR1R w hf - 0 9", 5, 9_183_776),
    ("1nbbnrkr/p1p1ppp1/3p4/1p3P1p/3Pq2P/8/PPP1P1P1/QNBBNRKR w HFhf - 0 9", 5, 34_030_312),
    ("qnbnr1kr/ppp1b1pp/4p3/3p1p2/8/2NPP3/PPP1BPPP/QNB1R1KR w HEhe - 1 9", 5, 24_851_983),
];

#[test]
fn test_perft() {
    // Counts above twenty million nodes take long for one test: the two of
    // 24 and 34 million have a test of their own below, the others are
    // checked below at lower depths.
    let time = Instant::now();
    let mut nodes: u64 = 0;
    for (i, &(fen, depth, expected_count)) in FENS.iter().enumerate() {
        if expected_count > 20_000_000 {
            continue;
        }
        let mut pos: Position = fen.parse().expect("hard coded");
        let count = perft(&mut pos, depth);
        assert_eq!(count, expected_count, "FEN {i}: {fen}");
        nodes += count;
    }
    println!("NPS: {:.0}", nodes as f64 / time.elapsed().as_secs_f64());
}

#[test]
fn perft_startpos_shallow() {
    let mut pos: Position = Fens::STARTPOS.parse().expect("hard coded");
    assert_eq!(perft(&mut pos, 1), 20);
    assert_eq!(perft(&mut pos, 2), 400);
    assert_eq!(perft(&mut pos, 3), 8_902);
    assert_eq!(perft(&mut pos, 4), 197_281);
}

#[test]
fn perft_kiwipete_shallow() {
    let mut pos: Position = Fens::KIWIPETE.parse().expect("hard coded");
    assert_eq!(perft(&mut pos, 1), 48);
    assert_eq!(perft(&mut pos, 2), 2_039);
    assert_eq!(perft(&mut pos, 3), 97_862);
}

#[test]
fn perft_endgame_shallow() {
    let mut pos: Position = "8/2p5/3p4/KP5r/1R3p1k/8/4P1P1/8 w - -".parse().expect("hard coded");
    assert_eq!(perft(&mut pos, 4), 43_238);
}

#[test]
fn perft_promotions_shallow() {
    let mut pos: Position =
        "r3k2r/Pppp1ppp/1b3nbN/nP6/BBP1P3/q4N2/Pp1P2PP/R2Q1RK1 w kq -".parse().expect("hard coded");
    assert_eq!(perft(&mut pos, 3), 9_467);
}

#[test]
fn perft_position5_shallow() {
    let mut pos: Position =
        "rnbq1k1r/pp1Pbppp/2p5/8/2B5/8/PPP1NnPP/RNBQK2R w KQ - 1 8".parse().expect("hard coded");
    assert_eq!(perft(&mut pos, 1), 44);
    assert_eq!(perft(&mut pos, 2), 1_486);
    assert_eq!(perft(&mut pos, 3), 62_379);
}

#[test]
fn perft_positions_are_valid() {
    for (i, &(fen, _, _)) in FENS.iter().enumerate() {
        let pos: Position = fen.parse().expect("hard coded");
        assert!(pos.valid(), "FEN {i}: {fen}");
    }
}

#[test]
fn invalid_positions_are_refused() {
    // two white kings and no black king
    let pos: Position = "8/8/8/8/8/8/8/K6K w - - 0 1".parse().expect("hard coded");
    assert!(!pos.valid());
    // white may castle queen side, but there is no rook on a1
    let pos: Position = "4k3/8/8/8/8/8/8/4K2R w KQ - 0 1".parse().expect("hard coded");
    assert!(!pos.valid());
    // white to move while the black king is attacked
    let pos: Position = "4k3/8/8/8/8/8/4R3/4K3 w - - 0 1".parse().expect("hard coded");
    assert!(!pos.valid());
}

#[test]
fn legal_moves_keep_positions_valid() {
    let mut pos: Position = Fens::KIWIPETE.parse().expect("hard coded");
    let moves = pos.generate::<true>();
    for i in 0..moves.len() {
        let m = moves.at(i).mov();
        if !pos.do_move(m) {
            continue;
        }
        assert!(pos.valid());
        pos.undo();
    }
    assert!(pos.valid());
}

fn perft_of(fen: &str, depth: u8) -> u64 {
    let mut pos: Position = fen.parse().expect("hard coded");
    perft(&mut pos, depth)
}

#[test]
fn perft_startpos_depth5() {
    assert_eq!(perft_of(FENS[0].0, 5), 4_865_609);
}

#[test]
fn perft_kiwipete_depth4() {
    assert_eq!(perft_of(FENS[1].0, 4), 4_085_603);
}

#[test]
fn perft_endgame_depth6() {
    assert_eq!(perft_of(FENS[2].0, 6), 11_030_083);
}

#[test]
fn perft_position5_depth4() {
    assert_eq!(perft_of(FENS[5].0, 4), 2_103_487);
}

#[test]
fn perft_frc_depth5() {
    assert_eq!(perft_of(FENS[8].0, 5), 6_417_013);
}

#[test]
fn perft_frc_full_5() {
    assert_eq!(perft_of(FENS[10].0, FENS[10].1), FENS[10].2);
}

#[test]
fn perft_frc_full_6() {
    assert_eq!(perft_of(FENS[11].0, FENS[11].1), FENS[11].2);
}

#[test]
fn perft_position4_depth5() {
    assert_eq!(perft_of(FENS[3].0, 4), 422_333);
    assert_eq!(perft_of(FENS[3].0, 5), 15_833_292);
}

#[test]
fn perft_position4_mirrored_depth5() {
    assert_eq!(perft_of(FENS[4].0, 4), 422_333);
    assert_eq!(perft_of(FENS[4].0, 5), 15_833_292);
}
