use kimbo::tables::countermove::CounterMoveTable;
use kimbo::tables::hash::HashTable as SlotTable;
use kimbo::tables::history::HistoryTable;
use kimbo::tables::killer::KillerMoveTable;
use kimbo::tables::search::{Bound, HashTable};
use kimbo::tables::Move;

#[test]
fn table_move_set_get() {
    let mut m = Move::new();
    assert_eq!(m.get(), 0);
    m.set(1234);
    assert_eq!(m.get(), 1234);
}

#[test]
fn countermove_read_after_write() {
    let mut t = CounterMoveTable::default();
    let prev = 12u16 | (28 << 6);
    assert_eq!(t.get(prev), 0);
    t.set(prev, 777);
    assert_eq!(t.get(prev), 777);
    // same from/to pair with a different flag reads the same slot
    assert_eq!(t.get(prev | 0x4000), 777);
    assert_eq!(t.get(13u16 | (28 << 6)), 0);
}

#[test]
fn history_scores() {
    let mut t = HistoryTable::default();
    assert_eq!(t.get(0, 100), 0);
    t.set(0, 100, 3);
    // 9 out of a maximum of 9: full score
    assert_eq!(t.get(0, 100), 200);
    t.set(1, 200, 6);
    // 9 * 200 / 36 rounded up
    assert_eq!(t.get(0, 100), 50);
    assert_eq!(t.get(1, 200), 200);
    assert_eq!(t.get(1, 100), 0);
}

#[test]
fn killer_push_shifts() {
    let mut t = KillerMoveTable::default();
    t.push(10, 4);
    assert_eq!(t.get_ply(4), [10, 0, 0]);
    t.push(20, 4);
    assert_eq!(t.get_ply(4), [20, 10, 0]);
    t.push(30, 4);
    assert_eq!(t.get_ply(4), [30, 20, 10]);
    // a move already at the front rotates the list
    t.push(30, 4);
    assert_eq!(t.get_ply(4), [10, 30, 20]);
    assert_eq!(t.get_ply(5), [0, 0, 0]);
}

#[test]
fn search_hash_push_get() {
    let mut t = HashTable::new(64 * 16);
    let z: u64 = 0xABCD_0000_0000_0005;
    assert!(t.get(z, 0).is_none());
    t.push(z, 0x1234, 5, Bound::EXACT, 77, 0);
    let r = t.get(z, 0).expect("stored");
    assert_eq!(r.key, 0xABCD);
    assert_eq!(r.best_move, 0x1234);
    assert_eq!(r.score, 77);
    assert_eq!(r.depth, 5);
    assert_eq!(r.bound, Bound::EXACT);
    assert_eq!(t.hashfull(), 1000 / 128);
    // a different key in the same bucket misses
    assert!(t.get(0x1111_0000_0000_0005, 0).is_none());
    t.clear();
    assert!(t.get(z, 0).is_none());
    assert_eq!(t.hashfull(), 0);
}

#[test]
fn search_hash_mate_scores_relative() {
    let mut t = HashTable::new(64 * 4);
    let z: u64 = 0x0102_0000_0000_0001;
    t.push(z, 1, 3, Bound::LOWER, 29_800, 4);
    // stored 4 further from zero, read back at ply 2: 2 closer to zero than stored
    assert_eq!(t.get(z, 2).expect("stored").score, 29_802);
    assert_eq!(t.get(z, 4).expect("stored").score, 29_800);
}

#[test]
fn slot_table_resize_push_probe() {
    let mut t = SlotTable::default();
    t.resize(1);
    assert_eq!(t.capacity(), 131_072);
    assert_eq!(t.filled(), 0);
    let h: u64 = 0x7777_0000_0000_0042;
    assert!(t.probe(h, 0).is_none());
    t.push(h, 0x0ABC, 6, 2, 150, 0);
    assert_eq!(t.filled(), 1);
    let r = t.probe(h, 0).expect("stored");
    assert_eq!(r.key, 0x7777);
    assert_eq!(r.mov, 0x0ABC);
    assert_eq!(r.score, 150);
    assert_eq!(r.depth, 6);
    assert_eq!(r.bound, 2);
    // shallower result for the same position does not replace
    t.push(h, 0x0DEF, 2, 0, 10, 0);
    assert_eq!(t.probe(h, 0).expect("stored").mov, 0x0ABC);
    // resize rounds down to a power of two
    t.resize(3);
    assert_eq!(t.capacity(), 2 * 131_072);
    t.clear();
    assert_eq!(t.filled(), 0);
}

#[test]
fn slot_table_negative_score_sets_high_bits() {
    let mut t = SlotTable::default();
    t.resize(1);
    let h: u64 = 0x0001_0000_0000_0009;
    t.push(h, 5, 4, 1, -20, 0);
    let r = t.probe(h, 0).expect("stored");
    assert_eq!(r.score, -20);
    assert_eq!(r.mov, 5);
    assert_eq!(r.depth, -1);
    assert_eq!(r.bound, 0xFF);
}
