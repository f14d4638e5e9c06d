//! Transposition table of the search: buckets of eight packed entries, each
//! holding the top 16 bits of a position's hash as key, the best move, score,
//! depth and bound type.
use vstd::prelude::*;
use crate::search::MATE_THRESHOLD;

verus! {

/// Kinds of stored score.
pub struct Bound;

impl Bound {
    pub const INVALID: u8 = 0;
    pub const LOWER: u8 = 1;
    pub const UPPER: u8 = 2;
    pub const EXACT: u8 = 3;
}

/// Entries per bucket.
pub const ENTRIES_PER_BUCKET: usize = 8;

/// Bytes per bucket: eight 64-bit entries, one cache line.
pub const BUCKET_SIZE: usize = 64;

/// One packed entry: bits 0-15 key, 16-31 best move, 32-47 score, 48-55
/// depth, 56-63 bound.
#[derive(Clone, Copy, Default)]
pub struct HashEntry {
    data: u64,
}

impl View for HashEntry {
    type V = u64;

    closed spec fn view(&self) -> u64 {
        self.data
    }
}

/// A cache line of entries.
#[derive(Clone, Copy, Default)]
pub struct HashBucket {
    entries: [HashEntry; 8],
}

impl View for HashBucket {
    type V = Seq<u64>;

    closed spec fn view(&self) -> Seq<u64> {
        self.entries@.map_values(|e: HashEntry| e@)
    }
}

/// A decoded entry.
#[derive(Clone, Copy, Default)]
pub struct HashResult {
    pub key: u16,
    pub best_move: u16,
    pub score: i16,
    pub depth: i8,
    pub bound: u8,
}

/// The packed form of an entry.
pub open spec fn pack(key: u16, best_move: u16, depth: i8, bound: u8, score: i16) -> u64 {
    (key as u64) | ((best_move as u64) << 16u64) | (((score as u16) as u64) << 32u64) | ((depth as u64)
        << 48u64) | ((bound as u64) << 56u64)
}

/// Key bits of a packed entry.
pub open spec fn key_of(data: u64) -> u16 {
    data as u16
}

/// Depth bits of a packed entry.
pub open spec fn depth_of(data: u64) -> i8 {
    (data >> 48u64) as i8
}

/// The decoded form of a packed entry; the bound keeps its two low bits.
pub open spec fn unpack(data: u64) -> HashResult {
    HashResult {
        key: data as u16,
        best_move: (data >> 16u64) as u16,
        score: (data >> 32u64) as i16,
        depth: (data >> 48u64) as i8,
        bound: ((data >> 56u64) & 3) as u8,
    }
}

/// Unpacking a packed entry gives back what was packed, when the depth is not
/// negative (a negative depth sets the bits above it as well) and the bound
/// has two bits; the depth comes back whatever the bound.
pub proof fn lemma_pack_unpack(key: u16, best_move: u16, depth: i8, bound: u8, score: i16)
    requires
        depth >= 0,
    ensures
        depth_of(pack(key, best_move, depth, bound, score)) == depth,
        bound < 4 ==> unpack(pack(key, best_move, depth, bound, score)) == (HashResult {
            key,
            best_move,
            score,
            depth,
            bound,
        }),
{
    let d = depth as u8;
    let s = score as u16;
    assert(depth as u64 == d as u64);
    let data = (key as u64) | ((best_move as u64) << 16u64) | ((s as u64) << 32u64) | ((d as u64)
        << 48u64) | ((bound as u64) << 56u64);
    assert(data as u16 == key && (data >> 16u64) as u16 == best_move && (data >> 32u64) as i16 == score
        && (data >> 48u64) as i8 == depth && (bound < 4 ==> ((data >> 56u64) & 3) as u8 == bound))
        by (bit_vector)
        requires
            data == (key as u64) | ((best_move as u64) << 16u64) | ((s as u64) << 32u64) | ((d as u64)
                << 48u64) | ((bound as u64) << 56u64),
            s == score as u16,
            d == depth as u8,
            depth >= 0,
    ;
}

/// Outcome of scanning a bucket for the entry to replace, after its first `n`
/// entries: the chosen index (-1 for none yet), the smallest depth seen, whether
/// the scan stopped, and whether it stopped at an empty entry. An entry with the
/// same key and a smaller depth, or an empty entry (depth zero), stops the
/// scan; otherwise the first entry of least depth below the maximum is chosen.
pub open spec fn replace_scan(b: Seq<u64>, key: u16, depth: i8, n: int) -> (int, i8, bool, bool)
    decreases n,
{
    if n <= 0 {
        (-1, i8::MAX, false, false)
    } else {
        let (i, s, stop, fills) = replace_scan(b, key, depth, n - 1);
        if stop {
            (i, s, stop, fills)
        } else {
            let d = depth_of(b[n - 1]);
            if key_of(b[n - 1]) == key && depth > d {
                (n - 1, s, true, false)
            } else if d == 0 {
                (n - 1, s, true, true)
            } else if d < s {
                (n - 1, d, false, false)
            } else {
                (i, s, false, false)
            }
        }
    }
}

pub proof fn lemma_replace_scan_range(b: Seq<u64>, key: u16, depth: i8, n: int)
    requires
        n >= 0,
    ensures
        -1 <= replace_scan(b, key, depth, n).0 < n,
        replace_scan(b, key, depth, n).0 == -1 ==> replace_scan(b, key, depth, n).1 == i8::MAX,
        replace_scan(b, key, depth, n).1 < i8::MAX ==> replace_scan(b, key, depth, n).0 >= 0,
        replace_scan(b, key, depth, n).2 ==> replace_scan(b, key, depth, n).0 >= 0,
    decreases n,
{
    if n > 0 {
        lemma_replace_scan_range(b, key, depth, n - 1);
    }
}

/// The index of the entry a push replaces, if the bucket has one.
pub open spec fn replace_index(b: Seq<u64>, key: u16, depth: i8) -> int {
    replace_scan(b, key, depth, 8).0
}

/// Score as stored: mate scores are made relative to the node by moving them
/// `ply` further from zero.
pub open spec fn score_to_store(score: i16, ply: i8) -> int {
    if score > MATE_THRESHOLD {
        score + ply
    } else if score < -MATE_THRESHOLD {
        score - ply
    } else {
        score as int
    }
}

/// Score as probed: mate scores stored relative to the node are brought back
/// `ply` closer to zero.
pub open spec fn score_from_store(score: i16, ply: i8) -> int {
    if score > MATE_THRESHOLD {
        score - ply
    } else if score < -MATE_THRESHOLD {
        score + ply
    } else {
        score as int
    }
}

/// Abstract contents of the table: the packed entries of each bucket, and the
/// number of entries filled.
pub struct HashTableView {
    pub buckets: Seq<Seq<u64>>,
    pub filled: u64,
    pub num_entries: usize,
}

pub struct HashTable {
    table: Vec<HashBucket>,
    num_buckets: usize,
    num_entries: usize,
    filled: u64,
}

impl View for HashTable {
    type V = HashTableView;

    closed spec fn view(&self) -> HashTableView {
        HashTableView {
            buckets: self.table@.map_values(|b: HashBucket| b@),
            filled: self.filled,
            num_entries: self.num_entries,
        }
    }
}

/// Bucket of a hash in a table of `n` buckets.
pub open spec fn bucket_of(zobrist: u64, n: int) -> int {
    (zobrist as usize) as int % n
}

/// Key of a hash: its top 16 bits.
pub open spec fn key_from(zobrist: u64) -> u16 {
    (zobrist >> 48u64) as u16
}

/// First entry of a bucket whose key is `key`, if any.
pub open spec fn first_with_key(b: Seq<u64>, key: u16, n: int) -> int
    decreases n,
{
    if n <= 0 {
        -1
    } else if first_with_key(b, key, n - 1) >= 0 {
        first_with_key(b, key, n - 1)
    } else if key_of(b[n - 1]) == key {
        n - 1
    } else {
        -1
    }
}

pub proof fn lemma_first_with_key(b: Seq<u64>, key: u16, n: int)
    requires
        0 <= n <= b.len(),
    ensures
        -1 <= first_with_key(b, key, n) < n,
        first_with_key(b, key, n) >= 0 ==> key_of(b[first_with_key(b, key, n)]) == key,
        first_with_key(b, key, n) >= 0 ==> forall|j: int|
            0 <= j < first_with_key(b, key, n) ==> key_of(b[j]) != key,
        first_with_key(b, key, n) == -1 ==> forall|j: int| 0 <= j < n ==> key_of(b[j]) != key,
    decreases n,
{
    if n > 0 {
        lemma_first_with_key(b, key, n - 1);
    }
}

impl HashTable {
    pub closed spec fn wf(&self) -> bool {
        &&& self.table@.len() == self.num_buckets
        &&& self.num_entries == 8 * self.num_buckets
    }

    pub proof fn lemma_wf(&self)
        requires
            self.wf(),
        ensures
            self@.num_entries == 8 * self@.buckets.len(),
            forall|i: int| 0 <= i < self@.buckets.len() ==> (#[trigger] self@.buckets[i]).len() == 8,
    {
        assert forall|i: int| 0 <= i < self@.buckets.len() implies (#[trigger] self@.buckets[i]).len()
            == 8 by {
            assert(self.table@[i].entries@.len() == 8);
        }
    }

    /// A table of `size` bytes, split in buckets of `BUCKET_SIZE` bytes, all
    /// entries empty.
    pub fn new(size: usize) -> (r: Self)
        ensures
            r.wf(),
            r@.buckets.len() == size / BUCKET_SIZE,
            r@.num_entries == 8 * (size / BUCKET_SIZE),
            r@.filled == 0,
            forall|i: int, j: int| 0 <= i < r@.buckets.len() && 0 <= j < 8 ==> r@.buckets[i][j] == 0,
    {
        let num_buckets = size / BUCKET_SIZE;
        let num_entries = num_buckets * ENTRIES_PER_BUCKET;
        let mut table: Vec<HashBucket> = Vec::new();
        let mut i: usize = 0;
        while i < num_buckets
            invariant
                i <= num_buckets,
                table@.len() == i,
                forall|k: int, j: int| 0 <= k < i && 0 <= j < 8 ==> (#[trigger] table@[k].entries@[j])@ == 0,
            decreases num_buckets - i,
        {
            table.push(HashBucket { entries: [HashEntry { data: 0 }; 8] });
            i += 1;
        }
        HashTable { table, num_buckets, num_entries, filled: 0 }
    }

    /// Empties every entry.
    pub fn clear(&mut self)
        requires
            old(self).wf(),
        ensures
            final(self).wf(),
            final(self)@.buckets.len() == old(self)@.buckets.len(),
            final(self)@.num_entries == old(self)@.num_entries,
            final(self)@.filled == 0,
            forall|i: int, j: int|
                0 <= i < final(self)@.buckets.len() && 0 <= j < 8 ==> final(self)@.buckets[i][j] == 0,
    {
        let n = self.table.len();
        let mut i: usize = 0;
        while i < n
            invariant
                i <= n,
                n == self.table@.len(),
                self.wf(),
                self.num_entries == old(self).num_entries,
                self.table@.len() == old(self).table@.len(),
                forall|k: int, j: int| 0 <= k < i && 0 <= j < 8 ==> (#[trigger] self.table@[k].entries@[j])@ == 0,
            decreases n - i,
        {
            self.table.set(i, HashBucket { entries: [HashEntry { data: 0 }; 8] });
            i += 1;
        }
        self.filled = 0;
    }

    /// Stores a search result for the position with hash `zobrist` found at
    /// `ply`, in the entry chosen by `replace_index`.
    pub fn push(&mut self, zobrist: u64, best_move: u16, depth: i8, bound: u8, score: i16, ply: i8)
        requires
            old(self).wf(),
            old(self)@.buckets.len() > 0,
            replace_index(
                old(self)@.buckets[bucket_of(zobrist, old(self)@.buckets.len() as int)],
                key_from(zobrist),
                depth,
            ) >= 0,
            i16::MIN <= score_to_store(score, ply) <= i16::MAX,
        ensures
            final(self).wf(),
            ({
                let b = bucket_of(zobrist, old(self)@.buckets.len() as int);
                let old_b = old(self)@.buckets[b];
                let (idx, _s, _stop, fills) = replace_scan(old_b, key_from(zobrist), depth, 8);
                &&& final(self)@.buckets == old(self)@.buckets.update(
                    b,
                    old_b.update(
                        idx,
                        pack(key_from(zobrist), best_move, depth, bound, score_to_store(score, ply) as i16),
                    ),
                )
                &&& final(self)@.filled == if fills {
                    old(self)@.filled.wrapping_add(1)
                } else {
                    old(self)@.filled
                }
                &&& final(self)@.num_entries == old(self)@.num_entries
            }),
    {
        proof {
            self.lemma_wf();
        }
        let key = (zobrist >> 48) as u16;
        let idx = (zobrist as usize) % self.num_buckets;
        let mut bucket = self.table[idx];
        let ghost b = bucket@;
        assert(b == self@.buckets[idx as int]);
        let mut desired_idx: usize = usize::MAX;
        let mut smallest_depth: i8 = i8::MAX;
        let mut fills = false;
        let mut i: usize = 0;
        while i < ENTRIES_PER_BUCKET
            invariant_except_break
                ({
                    let (ri, rs, rstop, rfills) = replace_scan(b, key, depth, i as int);
                    &&& !rstop
                    &&& (if ri == -1 { desired_idx == usize::MAX } else { desired_idx == ri })
                    &&& smallest_depth == rs
                    &&& !fills
                }),
            invariant
                i <= 8,
                b == bucket@,
                b.len() == 8,
            ensures
                ({
                    let (ri, rs, rstop, rfills) = replace_scan(b, key, depth, 8);
                    &&& (if ri == -1 { desired_idx == usize::MAX } else { desired_idx == ri })
                    &&& fills == rfills
                }),
            decreases 8 - i,
        {
            let data = bucket.entries[i].data;
            let d = (data >> 48) as i8;
            proof {
                lemma_replace_scan_range(b, key, depth, i as int);
                assert(b[i as int] == data);
            }
            if (data as u16) == key && depth > d {
                desired_idx = i;
                proof {
                    assert forall|n: int| i + 1 <= n <= 8 implies replace_scan(b, key, depth, n) == (
                    i as int, smallest_depth, true, false) by {
                        lemma_stop_persists(b, key, depth, i as int + 1, n);
                    }
                }
                break;
            }
            if d == 0 {
                fills = true;
                desired_idx = i;
                proof {
                    assert forall|n: int| i + 1 <= n <= 8 implies replace_scan(b, key, depth, n) == (
                    i as int, smallest_depth, true, true) by {
                        lemma_stop_persists(b, key, depth, i as int + 1, n);
                    }
                }
                break;
            }
            if d < smallest_depth {
                smallest_depth = d;
                desired_idx = i;
            }
            i += 1;
        }
        proof {
            lemma_replace_scan_range(b, key, depth, 8);
        }
        if fills {
            self.filled = self.filled.wrapping_add(1);
        }
        let mut s = score;
        if s > MATE_THRESHOLD {
            s = s + ply as i16;
        } else if s < -MATE_THRESHOLD {
            s = s - ply as i16;
        }
        let mut entry = HashEntry { data: 0 };
        entry.store(key, best_move, depth, bound, s);
        let data = entry.data;
        bucket.entries[desired_idx] = entry;
        self.table.set(idx, bucket);
        proof {
            assert(bucket@ =~= b.update(desired_idx as int, data));
            assert(self@.buckets =~= old(self)@.buckets.update(idx as int, b.update(desired_idx as int, data)));
        }
    }

    /// The entry stored for the position with hash `zobrist`, probed at `ply`,
    /// if its bucket holds one with its key: the first such entry.
    pub fn get(&self, zobrist: u64, ply: i8) -> (r: Option<HashResult>)
        requires
            self.wf(),
            self@.buckets.len() > 0,
            ({
                let b = self@.buckets[bucket_of(zobrist, self@.buckets.len() as int)];
                let k = first_with_key(b, key_from(zobrist), 8);
                k >= 0 ==> i16::MIN <= score_from_store(unpack(b[k]).score, ply) <= i16::MAX
            }),
        ensures
            ({
                let b = self@.buckets[bucket_of(zobrist, self@.buckets.len() as int)];
                let k = first_with_key(b, key_from(zobrist), 8);
                &&& k < 0 ==> r is None
                &&& k >= 0 ==> r == Some(
                    HashResult {
                        score: score_from_store(unpack(b[k]).score, ply) as i16,
                        ..unpack(b[k])
                    },
                )
            }),
    {
        proof {
            self.lemma_wf();
        }
        let key = (zobrist >> 48) as u16;
        let idx = (zobrist as usize) % self.num_buckets;
        let bucket = self.table[idx];
        let ghost b = bucket@;
        assert(b == self@.buckets[idx as int]);
        let mut i: usize = 0;
        while i < ENTRIES_PER_BUCKET
            invariant
                i <= 8,
                b == bucket@,
                b.len() == 8,
                b == self@.buckets[bucket_of(zobrist, self@.buckets.len() as int)],
                key == key_from(zobrist),
                first_with_key(b, key, i as int) == -1,
                ({
                    let k = first_with_key(b, key, 8);
                    k >= 0 ==> i16::MIN <= score_from_store(unpack(b[k]).score, ply) <= i16::MAX
                }),
            decreases 8 - i,
        {
            let data = bucket.entries[i].data;
            proof {
                assert(b[i as int] == data);
            }
            if HashEntry::get_key(data) == key {
                let mut entry_data = HashEntry::load(data);
                proof {
                    assert forall|n: int| i + 1 <= n <= 8 implies first_with_key(b, key, n) == i by {
                        lemma_first_key_persists(b, key, i as int + 1, n);
                    }
                }
                if entry_data.score > MATE_THRESHOLD {
                    entry_data.score = entry_data.score - ply as i16;
                } else if entry_data.score < -MATE_THRESHOLD {
                    entry_data.score = entry_data.score + ply as i16;
                }
                return Some(entry_data);
            }
            i += 1;
        }
        None
    }

    /// Permille of entries filled.
    pub fn hashfull(&self) -> (r: u64)
        requires
            self.wf(),
            self@.buckets.len() > 0,
            self@.filled * 1000 <= u64::MAX,
        ensures
            r == self@.filled * 1000 / (self@.num_entries as int),
    {
        self.filled * 1000 / (self.num_entries as u64)
    }
}

proof fn lemma_stop_persists(b: Seq<u64>, key: u16, depth: i8, m: int, n: int)
    requires
        1 <= m <= n,
        replace_scan(b, key, depth, m).2,
    ensures
        replace_scan(b, key, depth, n) == replace_scan(b, key, depth, m),
    decreases n - m,
{
    if n > m {
        lemma_stop_persists(b, key, depth, m, n - 1);
    }
}

proof fn lemma_first_key_persists(b: Seq<u64>, key: u16, m: int, n: int)
    requires
        1 <= m <= n,
        first_with_key(b, key, m) >= 0,
    ensures
        first_with_key(b, key, n) == first_with_key(b, key, m),
    decreases n - m,
{
    if n > m {
        lemma_first_key_persists(b, key, m, n - 1);
    }
}

impl HashEntry {
    /// Packs and stores an entry.
    fn store(&mut self, key: u16, best_move: u16, depth: i8, bound: u8, score: i16)
        ensures
            final(self)@ == pack(key, best_move, depth, bound, score),
    {
        self.data = (key as u64) | ((best_move as u64) << 16) | (((score as u16) as u64) << 32) | ((
        depth as u64) << 48) | ((bound as u64) << 56);
    }

    fn get_key(data: u64) -> (r: u16)
        ensures
            r == key_of(data),
    {
        data as u16
    }

    fn load(data: u64) -> (r: HashResult)
        ensures
            r == unpack(data),
    {
        HashResult {
            key: data as u16,
            best_move: (data >> 16) as u16,
            score: (data >> 32) as i16,
            depth: (data >> 48) as i8,
            bound: ((data >> 56) & 3) as u8,
        }
    }
}

/// After a push, probing the same hash finds an entry with its key.
pub proof fn lemma_push_then_get(b: Seq<u64>, idx: int, data: u64, key: u16)
    requires
        b.len() == 8,
        0 <= idx < 8,
        key_of(data) == key,
    ensures
        first_with_key(b.update(idx, data), key, 8) >= 0,
        first_with_key(b.update(idx, data), key, 8) <= idx,
{
    let nb = b.update(idx, data);
    lemma_first_with_key(nb, key, 8);
    assert(key_of(nb[idx]) == key);
    if first_with_key(nb, key, 8) > idx {
        assert(key_of(nb[idx]) != key);
    }
}

/// A stored result is read back as stored: when the bucket of a hash holds no
/// entry with its key, a push of a result with a depth and score in range,
/// followed by a probe of the same hash at the same ply, gives back the key,
/// move, depth, bound and score that were pushed (the mate-score shift made
/// on storing is undone on probing).
pub proof fn lemma_push_get_round_trip(
    b: Seq<u64>,
    zobrist: u64,
    best_move: u16,
    depth: i8,
    bound: u8,
    score: i16,
    ply: i8,
)
    requires
        b.len() == 8,
        forall|j: int| 0 <= j < 8 ==> key_of(#[trigger] b[j]) != key_from(zobrist),
        replace_index(b, key_from(zobrist), depth) >= 0,
        depth >= 0,
        bound < 4,
        ply >= 0,
        i16::MIN <= score_to_store(score, ply) <= i16::MAX,
    ensures
        ({
            let stored = pack(
                key_from(zobrist),
                best_move,
                depth,
                bound,
                score_to_store(score, ply) as i16,
            );
            let nb = b.update(replace_index(b, key_from(zobrist), depth), stored);
            let k = first_with_key(nb, key_from(zobrist), 8);
            &&& k == replace_index(b, key_from(zobrist), depth)
            &&& i16::MIN <= score_from_store(unpack(nb[k]).score, ply) <= i16::MAX
            &&& (HashResult { score: score_from_store(unpack(nb[k]).score, ply) as i16, ..unpack(nb[k]) })
                == (HashResult { key: key_from(zobrist), best_move, score, depth, bound })
        }),
{
    let key = key_from(zobrist);
    let idx = replace_index(b, key, depth);
    lemma_replace_scan_range(b, key, depth, 8);
    let s = score_to_store(score, ply) as i16;
    let stored = pack(key, best_move, depth, bound, s);
    let nb = b.update(idx, stored);
    lemma_pack_unpack(key, best_move, depth, bound, s);
    lemma_first_with_key(nb, key, 8);
    assert(key_of(nb[idx]) == key);
    let k = first_with_key(nb, key, 8);
    if k != idx {
        if k < idx {
            assert(nb[k] == b[k]);
        } else {
            assert(key_of(nb[idx]) != key);
        }
    }
}

} // verus!
