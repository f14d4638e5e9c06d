use kimbo::state::consts::{Fens, MoveFlag};
use kimbo::state::fen::square_str_to_index;
use kimbo::state::moves::{Move, MoveList};
use kimbo::state::position::Position;
use kimbo::uci::uci_to_u16;

#[test]
fn square_strings() {
    assert_eq!(square_str_to_index("a1"), Ok(0));
    assert_eq!(square_str_to_index("e3"), Ok(20));
    assert_eq!(square_str_to_index("h8"), Ok(63));
}

#[test]
fn fen_errors() {
    assert_eq!(Position::from_fen("").err(), Some(String::from("empty string")));
    assert_eq!(
        Position::from_fen("rnbqkbnr/pppppppp/9/8/8/8/PPPPPPPP/RNBQKBNR w KQkq - 0 1").err(),
        Some(String::from("invalid number of empty squares"))
    );
    assert_eq!(
        Position::from_fen("rnbqkbnr/ppppxppp/8/8/8/8/PPPPPPPP/RNBQKBNR w KQkq - 0 1").err(),
        Some(String::from("invalid letter in fen"))
    );
    assert_eq!(
        Position::from_fen("rnbqkbnr/pppppppp/8/8/8/8/PPPPPPPP/RNBQKBNR").err(),
        Some(String::from("no side to move provided"))
    );
    assert_eq!(
        Position::from_fen("rnbqkbnr/pppppppp/8/8/8/8/PPPPPPPP/RNBQKBNR w KQkq").err(),
        Some(String::from("no en passant square provided"))
    );
}

#[test]
fn fen_reads_position() {
    let pos = Position::from_fen(Fens::STARTPOS).expect("hard coded");
    assert_eq!(pos.stm(), 0);
    assert_eq!(pos.occ(), 0xFFFF_0000_0000_FFFF);
    assert_eq!(pos.piece(0, 5), 1 << 4);
    assert_eq!(pos.piece(1, 0), 0x00FF_0000_0000_0000);
    assert!(!pos.chess960());
    assert_eq!(pos.castling_rooks(), [0, 7]);
    assert!(!pos.in_check());
    let frc: Position = "bqnb1rkr/pp3ppp/3ppn2/2p5/5P2/P2P4/NPP1P1PP/BQ1BNRKR w HFhf - 2 9"
        .parse()
        .expect("hard coded");
    assert!(frc.chess960());
    assert_eq!(frc.castling_rooks(), [5, 7]);
}

#[test]
fn do_and_undo() {
    let mut pos = Position::from_fen(Fens::STARTPOS).expect("hard coded");
    let m = 12u16 | (28 << 6) | MoveFlag::DBL_PUSH;
    assert!(pos.do_move(m));
    assert_eq!(pos.stm(), 1);
    assert_eq!(pos.get_piece(1 << 28, pos.occ()), 0);
    pos.undo();
    assert_eq!(pos.stm(), 0);
    assert_eq!(pos.occ(), 0xFFFF_0000_0000_FFFF);
}

#[test]
fn illegal_move_is_refused() {
    // the knight on e2 is pinned against the king by the rook on e8
    let mut pos = Position::from_fen("4r2k/8/8/8/8/8/4N3/4K3 w - - 0 1").expect("hard coded");
    let before = pos.occ();
    assert!(!pos.do_move(12u16 | (18 << 6)));
    assert_eq!(pos.occ(), before);
    assert_eq!(pos.stm(), 0);
    // stepping the king onto the rook's file is illegal, sideways is not
    assert!(pos.do_move(4u16 | (3 << 6)));
    pos.undo();
    assert!(pos.is_square_attacked(4, 0, pos.occ()) == false);
}

#[test]
fn generated_and_picked() {
    let pos = Position::from_fen(Fens::STARTPOS).expect("hard coded");
    let all = pos.generate::<true>();
    assert_eq!(all.len(), 20);
    let caps = pos.generate::<false>();
    assert_eq!(caps.len(), 0);
    let mut list = MoveList::uninit();
    list.add(5);
    list.add(9);
    list.add(7);
    list.score(|m| m as i16);
    assert_eq!(list.pick().map(|m| m.mov()), Some(9));
    assert_eq!(list.pick().map(|m| m.mov()), Some(7));
    assert_eq!(list.pick().map(|m| m.mov()), Some(5));
    assert!(list.pick().is_none());
    assert_eq!(Move::new(3).score(), 0);
}

#[test]
fn reading_moves() {
    let pos = Position::from_fen(Fens::STARTPOS).expect("hard coded");
    assert_eq!(uci_to_u16(&pos, "e2e4"), Ok(12 | (28 << 6) | MoveFlag::DBL_PUSH));
    assert_eq!(uci_to_u16(&pos, "g1f3"), Ok(6 | (21 << 6)));
    assert!(uci_to_u16(&pos, "e2e5").is_err());
    let frc = Position::from_fen("bqnb1rkr/pp3ppp/3ppn2/2p5/5P2/P2P4/NPP1P1PP/BQ1BNRKR w HFhf - 2 9")
        .expect("hard coded");
    assert_eq!(uci_to_u16(&frc, "g1h1"), Ok(MoveFlag::KS_CASTLE | 6 | (6 << 6)));
}
