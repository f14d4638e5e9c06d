//! Transposition table of the engine: buckets of eight packed entries with
//! age-aware replacement.
use vstd::prelude::*;

verus! {

/// Entries per bucket.
pub const ENTRIES_PER_BUCKET: usize = 8;

/// Bytes per bucket.
pub const BUCKET_SIZE: usize = 64;

/// One packed entry: bits 0-15 key, 16-31 score, 32-47 best move, 48-55
/// depth, 56-57 cut-off type, 58-63 age.
#[derive(Clone, Copy, Default)]
pub struct TTEntry {
    data: u64,
}

impl View for TTEntry {
    type V = u64;

    closed spec fn view(&self) -> u64 {
        self.data
    }
}

/// A cache line of entries.
#[derive(Clone, Copy, Default)]
pub struct TTBucket {
    entries: [TTEntry; 8],
}

impl View for TTBucket {
    type V = Seq<u64>;

    closed spec fn view(&self) -> Seq<u64> {
        self.entries@.map_values(|e: TTEntry| e@)
    }
}

/// A decoded entry.
#[derive(Clone, Copy, Default)]
pub struct TTResult {
    pub key: u16,
    pub best_move: u16,
    pub score: i16,
    pub depth: u8,
    pub age: u8,
    pub cutoff_type: u8,
}

/// Kinds of stored score.
pub struct CuttoffType;

impl CuttoffType {
    pub const INVALID: u8 = 0;
    pub const EXACT: u8 = 1;
    pub const ALPHA: u8 = 2;
    pub const BETA: u8 = 3;
}

/// The packed form `set_data` writes.
pub open spec fn tt_pack(key: u16, score: i16, best_move: u16, depth: u8, age: u8, cutoff_type: u8) -> u64 {
    (key as u64) | (((score as u16) as u64) << 16u64) | ((best_move as u64) << 32u64) | ((depth as u64)
        << 48u64) | ((cutoff_type as u64) << 56u64) | ((age as u64) << 58u64)
}

/// The decoded form `get_data` reads. It takes the best move from bits 16-31
/// and the score from bits 32-47, the other way round from `tt_pack`.
pub open spec fn tt_unpack(data: u64) -> TTResult {
    TTResult {
        key: data as u16,
        best_move: (data >> 16u64) as u16,
        score: (data >> 32u64) as i16,
        depth: (data >> 48u64) as u8,
        age: (data >> 58u64) as u8,
        cutoff_type: ((data >> 56u64) & 3) as u8,
    }
}

/// What reading gives back of a write: key and depth as written, the written
/// score's bits as best move and the written move's bits as score, the two
/// low bits of the cut-off type, and the six low bits of the age when the
/// cut-off type fits its two bits.
pub proof fn lemma_tt_roundtrip(key: u16, score: i16, best_move: u16, depth: u8, age: u8, cutoff_type: u8)
    ensures
        tt_unpack(tt_pack(key, score, best_move, depth, age, cutoff_type)).key == key,
        tt_unpack(tt_pack(key, score, best_move, depth, age, cutoff_type)).best_move == score as u16,
        tt_unpack(tt_pack(key, score, best_move, depth, age, cutoff_type)).score == best_move as i16,
        tt_unpack(tt_pack(key, score, best_move, depth, age, cutoff_type)).depth == depth,
        tt_unpack(tt_pack(key, score, best_move, depth, age, cutoff_type)).cutoff_type == cutoff_type & 3,
        cutoff_type < 4 ==> tt_unpack(tt_pack(key, score, best_move, depth, age, cutoff_type)).age
            == age & 63,
{
    let s = score as u16;
    let d = tt_pack(key, score, best_move, depth, age, cutoff_type);
    assert(d as u16 == key && (d >> 16u64) as u16 == s && (d >> 32u64) as u16 == best_move && (d
        >> 48u64) as u8 == depth && ((d >> 56u64) & 3) as u8 == cutoff_type & 3 && (cutoff_type < 4
        ==> (d >> 58u64) as u8 == age & 63) && (d >> 32u64) as i16 == best_move as i16) by (bit_vector)
        requires
            d == (key as u64) | ((s as u64) << 16u64) | ((best_move as u64) << 32u64) | ((depth as u64)
                << 48u64) | ((cutoff_type as u64) << 56u64) | ((age as u64) << 58u64),
    ;
}

/// Scan of a bucket for the entry to replace, after its first `n` entries:
/// (chosen index or -1, smallest depth, whether an entry of another age was
/// seen, whether the scan stopped, whether it stopped at an empty entry).
/// An entry whose move bits are zero stops the scan as empty, one with the
/// key stops it; among entries of another age the first of least depth is
/// chosen, else the first of least depth below the maximum.
pub open spec fn tt_scan(b: Seq<u64>, key: u16, age: u8, n: int) -> (int, u8, bool, bool, bool)
    decreases n,
{
    if n <= 0 {
        (-1, u8::MAX, false, false, false)
    } else {
        let (i, s, old_found, stop, fills) = tt_scan(b, key, age, n - 1);
        if stop {
            (i, s, old_found, stop, fills)
        } else {
            let e = tt_unpack(b[n - 1]);
            if e.best_move == 0 {
                (n - 1, s, old_found, true, true)
            } else if e.key == key {
                (n - 1, s, old_found, true, false)
            } else if e.age != age {
                if old_found {
                    if e.depth < s {
                        (n - 1, e.depth, true, false, false)
                    } else {
                        (i, s, true, false, false)
                    }
                } else {
                    (n - 1, e.depth, true, false, false)
                }
            } else if !old_found && e.depth < s {
                (n - 1, e.depth, old_found, false, false)
            } else {
                (i, s, old_found, false, false)
            }
        }
    }
}

pub proof fn lemma_tt_scan_range(b: Seq<u64>, key: u16, age: u8, n: int)
    requires
        n >= 0,
    ensures
        -1 <= tt_scan(b, key, age, n).0 < n,
        tt_scan(b, key, age, n).3 ==> tt_scan(b, key, age, n).0 >= 0,
    decreases n,
{
    if n > 0 {
        lemma_tt_scan_range(b, key, age, n - 1);
    }
}

proof fn lemma_tt_stop_persists(b: Seq<u64>, key: u16, age: u8, m: int, n: int)
    requires
        1 <= m <= n,
        tt_scan(b, key, age, m).3,
    ensures
        tt_scan(b, key, age, n) == tt_scan(b, key, age, m),
    decreases n - m,
{
    if n > m {
        lemma_tt_stop_persists(b, key, age, m, n - 1);
    }
}

/// First entry of a bucket whose key is `key`, or -1.
pub open spec fn tt_first_key(b: Seq<u64>, key: u16, n: int) -> int
    decreases n,
{
    if n <= 0 {
        -1
    } else if tt_first_key(b, key, n - 1) >= 0 {
        tt_first_key(b, key, n - 1)
    } else if (b[n - 1] as u16) == key {
        n - 1
    } else {
        -1
    }
}

proof fn lemma_tt_first_key_persists(b: Seq<u64>, key: u16, m: int, n: int)
    requires
        1 <= m <= n,
        tt_first_key(b, key, m) >= 0,
    ensures
        tt_first_key(b, key, n) == tt_first_key(b, key, m),
    decreases n - m,
{
    if n > m {
        lemma_tt_first_key_persists(b, key, m, n - 1);
    }
}

/// Whether some entry among the first `n` has a nonzero key.
pub open spec fn tt_any_key(b: Seq<u64>, n: int) -> bool {
    exists|j: int| 0 <= j < n && (b[j] as u16) != 0
}

impl TTEntry {
    /// Packs and stores a search result.
    pub fn set_data(&mut self, key: u16, score: i16, best_move: u16, depth: u8, age: u8, cutoff_type: u8)
        ensures
            final(self)@ == tt_pack(key, score, best_move, depth, age, cutoff_type),
    {
        let data = (key as u64) | (((score as u16) as u64) << 16) | ((best_move as u64) << 32) | ((
        depth as u64) << 48) | ((cutoff_type as u64) << 56) | ((age as u64) << 58);
        self.data = data;
    }

    /// Reads the stored result.
    pub fn get_data(&self) -> (r: TTResult)
        ensures
            r == tt_unpack(self@),
    {
        let data = self.data;
        TTResult {
            key: data as u16,
            best_move: (data >> 16) as u16,
            score: (data >> 32) as i16,
            depth: (data >> 48) as u8,
            age: (data >> 58) as u8,
            cutoff_type: ((data >> 56) & 3) as u8,
        }
    }
}

/// Abstract contents of the table.
pub struct TTView {
    pub buckets: Seq<Seq<u64>>,
    pub filled: u64,
    pub num_entries: usize,
}

pub struct TT {
    table: Vec<TTBucket>,
    num_buckets: usize,
    num_entries: usize,
    filled: u64,
}

impl View for TT {
    type V = TTView;

    closed spec fn view(&self) -> TTView {
        TTView {
            buckets: self.table@.map_values(|b: TTBucket| b@),
            filled: self.filled,
            num_entries: self.num_entries,
        }
    }
}

/// Bucket of a hash in a table of `n` buckets.
pub open spec fn tt_bucket_of(zobrist: u64, n: int) -> int {
    (zobrist as usize) as int % n
}

impl TT {
    pub closed spec fn wf(&self) -> bool {
        &&& self.table@.len() == self.num_buckets
        &&& self.num_entries == 8 * self.num_buckets
    }

    pub proof fn lemma_wf(&self)
        requires
            self.wf(),
        ensures
            self@.num_entries == 8 * self@.buckets.len(),
            forall|i: int| 0 <= i < self@.buckets.len() ==> (#[trigger] self@.buckets[i]).len() == 8,
    {
        assert forall|i: int| 0 <= i < self@.buckets.len() implies (#[trigger] self@.buckets[i]).len()
            == 8 by {
            assert(self.table@[i].entries@.len() == 8);
        }
    }

    /// A table of `size` bytes in buckets of `BUCKET_SIZE` bytes, all empty.
    pub fn new(size: usize) -> (r: Self)
        ensures
            r.wf(),
            r@.buckets.len() == size / BUCKET_SIZE,
            r@.num_entries == 8 * (size / BUCKET_SIZE),
            r@.filled == 0,
            forall|i: int, j: int| 0 <= i < r@.buckets.len() && 0 <= j < 8 ==> r@.buckets[i][j] == 0,
    {
        let num_buckets = size / BUCKET_SIZE;
        let num_entries = num_buckets * ENTRIES_PER_BUCKET;
        let mut table: Vec<TTBucket> = Vec::new();
        let mut i: usize = 0;
        while i < num_buckets
            invariant
                i <= num_buckets,
                table@.len() == i,
                forall|k: int, j: int| 0 <= k < i && 0 <= j < 8 ==> (#[trigger] table@[k].entries@[j])@ == 0,
            decreases num_buckets - i,
        {
            table.push(TTBucket { entries: [TTEntry { data: 0 }; 8] });
            i += 1;
        }
        TT { table, num_buckets, num_entries, filled: 0 }
    }

    /// Stores a search result for the position with hash `zobrist` in the
    /// entry chosen by `tt_scan`.
    pub fn push(&mut self, zobrist: u64, score: i16, best_move: u16, depth: u8, age: u8, cutoff_type: u8)
        requires
            old(self).wf(),
            old(self)@.buckets.len() > 0,
            tt_scan(
                old(self)@.buckets[tt_bucket_of(zobrist, old(self)@.buckets.len() as int)],
                (zobrist >> 48u64) as u16,
                age,
                8,
            ).0 >= 0,
        ensures
            final(self).wf(),
            ({
                let b = tt_bucket_of(zobrist, old(self)@.buckets.len() as int);
                let old_b = old(self)@.buckets[b];
                let (idx, _s, _o, _stop, fills) = tt_scan(old_b, (zobrist >> 48u64) as u16, age, 8);
                &&& final(self)@.buckets == old(self)@.buckets.update(
                    b,
                    old_b.update(
                        idx,
                        tt_pack((zobrist >> 48u64) as u16, score, best_move, depth, age, cutoff_type),
                    ),
                )
                &&& final(self)@.filled == if fills {
                    old(self)@.filled.wrapping_add(1)
                } else {
                    old(self)@.filled
                }
                &&& final(self)@.num_entries == old(self)@.num_entries
            }),
    {
        proof {
            self.lemma_wf();
        }
        let key = (zobrist >> 48) as u16;
        let index = (zobrist as usize) % self.table.len();
        let mut bucket = self.table[index];
        let ghost b = bucket@;
        assert(b == self@.buckets[index as int]);
        let mut smallest_depth: u8 = u8::MAX;
        let mut desired_index: usize = usize::MAX;
        let mut found_old_entry = false;
        let mut fills = false;
        let mut i: usize = 0;
        while i < ENTRIES_PER_BUCKET
            invariant_except_break
                ({
                    let (ri, rs, ro, rstop, rfills) = tt_scan(b, key, age, i as int);
                    &&& !rstop
                    &&& (if ri == -1 { desired_index == usize::MAX } else { desired_index == ri })
                    &&& smallest_depth == rs
                    &&& found_old_entry == ro
                    &&& !fills
                }),
            invariant
                i <= 8,
                b == bucket@,
                b.len() == 8,
            ensures
                ({
                    let (ri, rs, ro, rstop, rfills) = tt_scan(b, key, age, 8);
                    &&& (if ri == -1 { desired_index == usize::MAX } else { desired_index == ri })
                    &&& fills == rfills
                }),
            decreases 8 - i,
        {
            let entry_data = bucket.entries[i].get_data();
            proof {
                lemma_tt_scan_range(b, key, age, i as int);
                assert(b[i as int] == bucket.entries@[i as int]@);
            }
            if entry_data.best_move == 0 {
                fills = true;
                desired_index = i;
                proof {
                    assert forall|n: int| i + 1 <= n <= 8 implies #[trigger] tt_scan(b, key, age, n) == tt_scan(
                        b,
                        key,
                        age,
                        i + 1,
                    ) by {
                        lemma_tt_stop_persists(b, key, age, i as int + 1, n);
                    }
                }
                break;
            }
            if entry_data.key == key {
                desired_index = i;
                proof {
                    assert forall|n: int| i + 1 <= n <= 8 implies #[trigger] tt_scan(b, key, age, n) == tt_scan(
                        b,
                        key,
                        age,
                        i + 1,
                    ) by {
                        lemma_tt_stop_persists(b, key, age, i as int + 1, n);
                    }
                }
                break;
            }
            if entry_data.age != age {
                if found_old_entry {
                    if entry_data.depth < smallest_depth {
                        desired_index = i;
                        smallest_depth = entry_data.depth;
                    }
                } else {
                    desired_index = i;
                    smallest_depth = entry_data.depth;
                    found_old_entry = true;
                }
            } else if !found_old_entry && entry_data.depth < smallest_depth {
                smallest_depth = entry_data.depth;
                desired_index = i;
            }
            i += 1;
        }
        proof {
            lemma_tt_scan_range(b, key, age, 8);
        }
        if fills {
            self.filled = self.filled.wrapping_add(1);
        }
        let mut e = bucket.entries[desired_index];
        e.set_data(key, score, best_move, depth, age, cutoff_type);
        bucket.entries[desired_index] = e;
        self.table.set(index, bucket);
        proof {
            assert(bucket@ =~= b.update(
                desired_index as int,
                tt_pack(key, score, best_move, depth, age, cutoff_type),
            ));
            assert(self@.buckets =~= old(self)@.buckets.update(
                index as int,
                b.update(desired_index as int, tt_pack(key, score, best_move, depth, age, cutoff_type)),
            ));
        }
    }

    /// The first entry of the hash's bucket with its key, if any. When there
    /// is none but some entry of the bucket holds another key, `collision` is
    /// set; otherwise it is left as it was.
    pub fn get(&self, zobrist: u64, collision: &mut bool) -> (r: Option<TTResult>)
        requires
            self.wf(),
            self@.buckets.len() > 0,
        ensures
            ({
                let b = self@.buckets[tt_bucket_of(zobrist, self@.buckets.len() as int)];
                let k = tt_first_key(b, (zobrist >> 48u64) as u16, 8);
                &&& k >= 0 ==> r == Some(tt_unpack(b[k])) && *final(collision) == *old(collision)
                &&& k < 0 ==> r is None && *final(collision) == (*old(collision) || tt_any_key(b, 8))
            }),
    {
        proof {
            self.lemma_wf();
        }
        let key = (zobrist >> 48) as u16;
        let index = (zobrist as usize) % self.table.len();
        let bucket = self.table[index];
        let ghost b = bucket@;
        assert(b == self@.buckets[index as int]);
        let mut entry_with_key_present = false;
        let mut i: usize = 0;
        while i < ENTRIES_PER_BUCKET
            invariant
                i <= 8,
                b == bucket@,
                b.len() == 8,
                tt_first_key(b, key, i as int) == -1,
                entry_with_key_present == tt_any_key(b, i as int),
                b == self@.buckets[tt_bucket_of(zobrist, self@.buckets.len() as int)],
                key == (zobrist >> 48u64) as u16,
                *collision == *old(collision),
            decreases 8 - i,
        {
            let entry_data = bucket.entries[i].get_data();
            proof {
                assert(b[i as int] == bucket.entries@[i as int]@);
            }
            if entry_data.key == key {
                proof {
                    assert forall|n: int| i + 1 <= n <= 8 implies tt_first_key(b, key, n) == i by {
                        lemma_tt_first_key_persists(b, key, i as int + 1, n);
                    }
                }
                return Some(entry_data);
            } else if entry_data.key != 0 {
                entry_with_key_present = true;
            }
            proof {
                assert(tt_any_key(b, i + 1) == (tt_any_key(b, i as int) || (b[i as int] as u16) != 0)) by {
                    if tt_any_key(b, i + 1) {
                        let j = choose|j: int| 0 <= j < i + 1 && (b[j] as u16) != 0;
                        if j < i {
                            assert(tt_any_key(b, i as int));
                        }
                    }
                }
            }
            i += 1;
        }
        if entry_with_key_present {
            *collision = true;
        }
        None
    }
}

} // verus!
