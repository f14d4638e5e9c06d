use kimbo::hash::perft::PerftTT;
use kimbo::position::MoveList as PlainMoveList;
use kimbo::state::consts::{Fens, MoveFlag};
use kimbo::state::moves::MoveList;
use kimbo::state::position::Position;
use kimbo::tables::countermove::CounterMoveTable;
use kimbo::tables::hash::HashTable as SlotTable;
use kimbo::tables::search::{Bound, HashTable};

fn moves_of(list: &MoveList) -> Vec<u16> {
    (0..list.len()).map(|i| list.at(i).mov()).collect()
}

#[test]
fn search_table_round_trip() {
    let mut t = HashTable::new(1024);
    let z: u64 = 0xABCD_0000_0000_0013;
    assert!(t.get(z, 3).is_none());
    t.push(z, 12 | (28 << 6), 5, Bound::EXACT, 123, 3);
    let r = t.get(z, 3).expect("stored");
    assert_eq!(r.key, 0xABCD);
    assert_eq!(r.best_move, 12 | (28 << 6));
    assert_eq!(r.depth, 5);
    assert_eq!(r.bound, Bound::EXACT);
    assert_eq!(r.score, 123);
}

#[test]
fn search_table_mate_score_round_trip() {
    let mut t = HashTable::new(1024);
    let z: u64 = 0x1234_0000_0000_0007;
    t.push(z, 99, 4, Bound::LOWER, 29_990, 6);
    let r = t.get(z, 6).expect("stored");
    assert_eq!(r.score, 29_990);
    t.push(z ^ (1 << 60), 98, 4, Bound::UPPER, -29_990, 6);
    let r = t.get(z ^ (1 << 60), 6).expect("stored");
    assert_eq!(r.score, -29_990);
}

#[test]
fn search_table_hashfull_counts_new_entries() {
    let mut t = HashTable::new(128);
    assert_eq!(t.hashfull(), 0);
    for i in 0..16u64 {
        t.push(((i + 1) << 48) | (i % 2), 1, 3, Bound::EXACT, 0, 0);
    }
    assert_eq!(t.hashfull(), 1000);
    t.clear();
    assert_eq!(t.hashfull(), 0);
}

#[test]
fn slot_table_keeps_deeper_entry() {
    let mut t = SlotTable::default();
    t.resize(1);
    let h: u64 = 0x7777_0000_0000_0042;
    t.push(h, 11, 8, 2, 50, 0);
    let filled = t.filled();
    t.push(h, 22, 3, 1, 10, 0);
    let r = t.probe(h, 0).expect("stored");
    assert_eq!(r.mov, 11);
    assert_eq!(r.depth, 8);
    assert_eq!(r.score, 50);
    assert_eq!(t.filled(), filled);
    t.push(h, 33, 9, 1, 10, 0);
    assert_eq!(t.probe(h, 0).expect("stored").mov, 33);
}

#[test]
fn perft_table_reads_back_by_depth() {
    let mut t = PerftTT::new(1024);
    let z: u64 = 0xDEAD_BEEF_0000_1230;
    t.push(z, 8_902, 3);
    assert_eq!(t.get(z, 3), Some(8_902));
    assert_eq!(t.get(z, 2), None);
    assert_eq!(t.get(z, 4), None);
}

#[test]
fn countermove_survives_other_pairs() {
    let mut t = CounterMoveTable::default();
    let prev = 12u16 | (28 << 6);
    t.set(prev, 777);
    t.set(13 | (29 << 6), 1);
    t.set(6 | (21 << 6), 2);
    assert_eq!(t.get(prev), 777);
    assert_eq!(t.get(prev | MoveFlag::DBL_PUSH), 777);
    t.set(prev | MoveFlag::CAPTURE, 5);
    assert_eq!(t.get(prev), 5);
}

#[test]
fn move_list_pushes_append() {
    let mut l = PlainMoveList::new([0u16; 255], 2);
    assert_eq!(l.len(), 2);
    for m in [7u16, 8, 9] {
        l.push(m);
    }
    assert_eq!(l.len(), 5);
    assert!(!l.is_empty());
    assert_eq!(l.at(2), 7);
    assert_eq!(l.at(4), 9);
    l.clear();
    assert_eq!(l.len(), 0);
    assert!(l.is_empty());
}

#[test]
fn generation_holds_every_start_move() {
    let pos = Position::from_fen(Fens::STARTPOS).expect("hard coded");
    let all = moves_of(&pos.generate::<true>());
    for f in 8..16u16 {
        assert!(all.contains(&(f | ((f + 8) << 6))));
        assert!(all.contains(&(f | ((f + 16) << 6) | MoveFlag::DBL_PUSH)));
    }
    for (f, t) in [(1u16, 16u16), (1, 18), (6, 21), (6, 23)] {
        assert!(all.contains(&(f | (t << 6))));
    }
    assert_eq!(all.len(), 20);
}

#[test]
fn generation_holds_captures_castles_and_en_passant() {
    let pos = Position::from_fen(Fens::KIWIPETE).expect("hard coded");
    let all = moves_of(&pos.generate::<true>());
    let caps = moves_of(&pos.generate::<false>());
    // e5xf7 by the knight, d5xe6 by the pawn
    let nxf7 = 36u16 | (53 << 6) | MoveFlag::CAPTURE;
    let dxe6 = 35u16 | (44 << 6) | MoveFlag::CAPTURE;
    assert!(all.contains(&nxf7) && caps.contains(&nxf7));
    assert!(all.contains(&dxe6) && caps.contains(&dxe6));
    // both castles
    assert!(all.contains(&(MoveFlag::KS_CASTLE | 4 | (6 << 6))));
    assert!(all.contains(&(MoveFlag::QS_CASTLE | 4 | (2 << 6))));
    let ep = Position::from_fen("4k3/8/8/3pP3/8/8/8/4K3 w - d6 0 2").expect("hard coded");
    let ep_caps = moves_of(&ep.generate::<false>());
    assert!(ep_caps.contains(&(36 | (43 << 6) | MoveFlag::EN_PASSANT)));
}

#[test]
fn generation_holds_every_promotion() {
    let pos = Position::from_fen("1n2k3/P7/8/8/8/8/8/4K3 w - - 0 1").expect("hard coded");
    let all = moves_of(&pos.generate::<true>());
    for fl in [0x8000u16, 0x9000, 0xA000, 0xB000] {
        assert!(all.contains(&(48 | (56 << 6) | fl)));
    }
    for fl in [0xC000u16, 0xD000, 0xE000, 0xF000] {
        assert!(all.contains(&(48 | (57 << 6) | fl)));
    }
}

#[test]
fn generation_lists_each_move_once() {
    let fens = [
        Fens::STARTPOS,
        Fens::KIWIPETE,
        "4k3/8/8/3pP3/8/8/8/4K3 w - d6 0 2",
        "1n2k3/P7/8/8/8/8/8/4K3 w - - 0 1",
        "bqnb1rkr/pp3ppp/3ppn2/2p5/5P2/P2P4/NPP1P1PP/BQ1BNRKR w HFhf - 2 9",
    ];
    for fen in fens {
        let pos = Position::from_fen(fen).expect("hard coded");
        for quiet in [true, false] {
            let list = if quiet { pos.generate::<true>() } else { pos.generate::<false>() };
            let ms = moves_of(&list);
            let mut sorted = ms.clone();
            sorted.sort_unstable();
            sorted.dedup();
            assert_eq!(sorted.len(), ms.len(), "{fen}");
        }
    }
}
