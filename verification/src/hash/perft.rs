//! Perft transposition table: buckets of eight entries, each a key word and a
//! count, the key stored XOR the count so that a torn write is never taken
//! for a hit.
use vstd::prelude::*;

verus! {

/// Entries per bucket.
pub const ENTRIES_PER_BUCKET: usize = 8;

/// Bytes per bucket: eight entries of two words.
pub const BUCKET_SIZE: usize = 128;

/// One entry: the stored key word (key XOR count) and the count.
#[derive(Clone, Copy, Default)]
pub struct PerftTTEntry {
    key: u64,
    data: u64,
}

impl View for PerftTTEntry {
    type V = (u64, u64);

    closed spec fn view(&self) -> (u64, u64) {
        (self.key, self.data)
    }
}

/// A bucket of entries.
#[derive(Clone, Copy, Default)]
pub struct PerftTTBucket {
    entries: [PerftTTEntry; 8],
}

impl View for PerftTTBucket {
    type V = Seq<(u64, u64)>;

    closed spec fn view(&self) -> Seq<(u64, u64)> {
        self.entries@.map_values(|e: PerftTTEntry| e@)
    }
}

/// Key of a position with hash `zobrist` at `depth`: the hash with its low
/// four bits replaced by the depth.
pub open spec fn perft_key(zobrist: u64, depth: u8) -> u64 {
    (zobrist & !0xfu64) | (depth as u64)
}

/// Depth recorded in an entry: the low four bits of its key.
pub open spec fn entry_depth(e: (u64, u64)) -> u8 {
    ((e.0 ^ e.1) as u8) & 0xf
}

/// Scan for the entry to replace after the first `n` entries: the first
/// entry of least recorded depth, and that depth.
pub open spec fn perft_scan(b: Seq<(u64, u64)>, n: int) -> (int, u8)
    decreases n,
{
    if n <= 0 {
        (0, u8::MAX)
    } else {
        let (i, s) = perft_scan(b, n - 1);
        if entry_depth(b[n - 1]) < s {
            (n - 1, entry_depth(b[n - 1]))
        } else {
            (i, s)
        }
    }
}

pub proof fn lemma_perft_scan(b: Seq<(u64, u64)>, n: int)
    requires
        n >= 0,
    ensures
        0 <= perft_scan(b, n).0 < if n == 0 { 1 } else { n },
    decreases n,
{
    if n > 0 {
        lemma_perft_scan(b, n - 1);
    }
}

/// First entry among the first `n` whose key is `key`, or -1.
pub open spec fn perft_find(b: Seq<(u64, u64)>, key: u64, n: int) -> int
    decreases n,
{
    if n <= 0 {
        -1
    } else if perft_find(b, key, n - 1) >= 0 {
        perft_find(b, key, n - 1)
    } else if b[n - 1].0 ^ b[n - 1].1 == key {
        n - 1
    } else {
        -1
    }
}

pub proof fn lemma_perft_find(b: Seq<(u64, u64)>, key: u64, n: int)
    requires
        0 <= n <= b.len(),
    ensures
        -1 <= perft_find(b, key, n) < n,
        perft_find(b, key, n) >= 0 ==> b[perft_find(b, key, n)].0 ^ b[perft_find(b, key, n)].1 == key,
        perft_find(b, key, n) >= 0 ==> forall|j: int|
            0 <= j < perft_find(b, key, n) ==> b[j].0 ^ b[j].1 != key,
        perft_find(b, key, n) == -1 ==> forall|j: int| 0 <= j < n ==> b[j].0 ^ b[j].1 != key,
    decreases n,
{
    if n > 0 {
        lemma_perft_find(b, key, n - 1);
    }
}

pub proof fn lemma_perft_find_persists(b: Seq<(u64, u64)>, key: u64, m: int, n: int)
    requires
        1 <= m <= n,
        perft_find(b, key, m) >= 0,
    ensures
        perft_find(b, key, n) == perft_find(b, key, m),
    decreases n - m,
{
    if n > m {
        lemma_perft_find_persists(b, key, m, n - 1);
    }
}

/// The entry written for a count under a key.
pub open spec fn perft_entry(key: u64, count: u64) -> (u64, u64) {
    (key ^ count, count)
}

/// A stored entry is found again under its key: after storing `count` for
/// `key` in slot `idx`, a lookup of `key` hits at `idx` or at an earlier slot
/// with the same key, and at `idx` it reads back `count`.
pub proof fn lemma_perft_read_after_write(b: Seq<(u64, u64)>, idx: int, key: u64, count: u64)
    requires
        b.len() == 8,
        0 <= idx < 8,
    ensures
        0 <= perft_find(b.update(idx, perft_entry(key, count)), key, 8) <= idx,
        perft_find(b, key, idx) == -1 ==> perft_find(b.update(idx, perft_entry(key, count)), key, 8)
            == idx,
        b.update(idx, perft_entry(key, count))[idx].1 == count,
{
    let nb = b.update(idx, perft_entry(key, count));
    crate::bits::lemma_xor(key, count, count);
    lemma_perft_find(nb, key, 8);
    lemma_perft_find(b, key, idx);
    assert(nb[idx].0 ^ nb[idx].1 == key);
    if perft_find(nb, key, 8) > idx {
        assert(nb[idx].0 ^ nb[idx].1 != key);
    }
    if perft_find(b, key, idx) == -1 && perft_find(nb, key, 8) < idx {
        let k = perft_find(nb, key, 8);
        assert(nb[k] == b[k]);
    }
}

/// Abstract contents of the table.
pub struct PerftTTView {
    pub buckets: Seq<Seq<(u64, u64)>>,
    pub num_entries: usize,
    pub filled: u64,
}

pub struct PerftTT {
    table: Vec<PerftTTBucket>,
    num_buckets: usize,
    pub num_entries: usize,
    pub filled: u64,
}

impl View for PerftTT {
    type V = PerftTTView;

    closed spec fn view(&self) -> PerftTTView {
        PerftTTView {
            buckets: self.table@.map_values(|b: PerftTTBucket| b@),
            num_entries: self.num_entries,
            filled: self.filled,
        }
    }
}

/// Bucket of a hash in a table of `n` buckets.
pub open spec fn perft_bucket_of(zobrist: u64, n: int) -> int {
    (zobrist as usize) as int % n
}

impl PerftTT {
    pub closed spec fn wf(&self) -> bool {
        &&& self.table@.len() == self.num_buckets
        &&& self.num_entries == 8 * self.num_buckets
    }

    pub proof fn lemma_wf(&self)
        requires
            self.wf(),
        ensures
            forall|i: int| 0 <= i < self@.buckets.len() ==> (#[trigger] self@.buckets[i]).len() == 8,
    {
        assert forall|i: int| 0 <= i < self@.buckets.len() implies (#[trigger] self@.buckets[i]).len()
            == 8 by {
            assert(self.table@[i].entries@.len() == 8);
        }
    }

    /// A table of `size` bytes in buckets of `BUCKET_SIZE` bytes, all empty.
    pub fn new(size: usize) -> (r: Self)
        ensures
            r.wf(),
            r@.buckets.len() == size / BUCKET_SIZE,
            r@.num_entries == 8 * (size / BUCKET_SIZE),
            r@.filled == 0,
            forall|i: int, j: int| 0 <= i < r@.buckets.len() && 0 <= j < 8 ==> r@.buckets[i][j] == (
            0u64, 0u64),
    {
        let num_buckets = size / BUCKET_SIZE;
        let num_entries = num_buckets * ENTRIES_PER_BUCKET;
        let mut table: Vec<PerftTTBucket> = Vec::new();
        let mut i: usize = 0;
        while i < num_buckets
            invariant
                i <= num_buckets,
                table@.len() == i,
                forall|k: int, j: int| 0 <= k < i && 0 <= j < 8 ==> (#[trigger] table@[k].entries@[j])@ == (
                0u64, 0u64),
            decreases num_buckets - i,
        {
            table.push(PerftTTBucket { entries: [PerftTTEntry { key: 0, data: 0 }; 8] });
            i += 1;
        }
        PerftTT { table, num_buckets, num_entries, filled: 0 }
    }

    /// Stores `count` for the position with hash `zobrist` at `depth`, over
    /// the first entry of least recorded depth in its bucket.
    pub fn push(&mut self, zobrist: u64, count: u64, depth: u8)
        requires
            old(self).wf(),
            old(self)@.buckets.len() > 0,
        ensures
            final(self).wf(),
            ({
                let b = perft_bucket_of(zobrist, old(self)@.buckets.len() as int);
                let old_b = old(self)@.buckets[b];
                let (idx, smallest) = perft_scan(old_b, 8);
                &&& final(self)@.buckets == old(self)@.buckets.update(
                    b,
                    old_b.update(idx, perft_entry(perft_key(zobrist, depth), count)),
                )
                &&& final(self)@.filled == if smallest == 0 {
                    old(self)@.filled.wrapping_add(1)
                } else {
                    old(self)@.filled
                }
                &&& final(self)@.num_entries == old(self)@.num_entries
            }),
    {
        proof {
            self.lemma_wf();
        }
        let idx = (zobrist as usize) % self.num_buckets;
        let mut bucket = self.table[idx];
        let ghost b = bucket@;
        assert(b == self@.buckets[idx as int]);
        let mut smallest_depth: u8 = u8::MAX;
        let mut desired_idx: usize = 0;
        let mut i: usize = 0;
        while i < ENTRIES_PER_BUCKET
            invariant
                i <= 8,
                b == bucket@,
                b.len() == 8,
                (desired_idx as int, smallest_depth) == perft_scan(b, i as int),
            decreases 8 - i,
        {
            proof {
                lemma_perft_scan(b, i as int);
                assert(b[i as int] == bucket.entries@[i as int]@);
            }
            let entry_key = bucket.entries[i].key;
            let entry_data = bucket.entries[i].data;
            let entry_depth = ((entry_key ^ entry_data) as u8) & 0xf;
            if entry_depth < smallest_depth {
                smallest_depth = entry_depth;
                desired_idx = i;
            }
            i += 1;
        }
        proof {
            lemma_perft_scan(b, 8);
        }
        let key = (zobrist & !0xf) | (depth as u64);
        let data = count;
        if smallest_depth == 0 {
            self.filled = self.filled.wrapping_add(1);
        }
        bucket.entries[desired_idx] = PerftTTEntry { key: key ^ data, data };
        self.table.set(idx, bucket);
        proof {
            assert(bucket@ =~= b.update(desired_idx as int, perft_entry(perft_key(zobrist, depth), count)));
            assert(self@.buckets =~= old(self)@.buckets.update(
                idx as int,
                b.update(desired_idx as int, perft_entry(perft_key(zobrist, depth), count)),
            ));
        }
    }

    /// The count stored for the position with hash `zobrist` at `depth`: that
    /// of the first entry of its bucket with its key, if any.
    pub fn get(&self, zobrist: u64, depth: u8) -> (r: Option<u64>)
        requires
            self.wf(),
            self@.buckets.len() > 0,
        ensures
            ({
                let b = self@.buckets[perft_bucket_of(zobrist, self@.buckets.len() as int)];
                let k = perft_find(b, perft_key(zobrist, depth), 8);
                &&& k >= 0 ==> r == Some(b[k].1)
                &&& k < 0 ==> r is None
            }),
    {
        proof {
            self.lemma_wf();
        }
        let idx = (zobrist as usize) % self.num_buckets;
        let bucket = self.table[idx];
        let ghost b = bucket@;
        let ghost key = perft_key(zobrist, depth);
        assert(b == self@.buckets[idx as int]);
        let mut i: usize = 0;
        while i < ENTRIES_PER_BUCKET
            invariant
                i <= 8,
                b == bucket@,
                b.len() == 8,
                b == self@.buckets[perft_bucket_of(zobrist, self@.buckets.len() as int)],
                key == perft_key(zobrist, depth),
                perft_find(b, key, i as int) == -1,
            decreases 8 - i,
        {
            proof {
                assert(b[i as int] == bucket.entries@[i as int]@);
            }
            let entry_key = bucket.entries[i].key;
            let entry_data = bucket.entries[i].data;
            let k = (zobrist & !0xf) | (depth as u64);
            if (entry_key ^ entry_data) == k {
                proof {
                    assert forall|n: int| i + 1 <= n <= 8 implies #[trigger] perft_find(b, key, n) == i by {
                        lemma_perft_find_persists(b, key, i as int + 1, n);
                    }
                }
                return Some(entry_data);
            }
            i += 1;
        }
        None
    }
}

/// On an empty bucket a stored count is read back, under its own depth only:
/// after a push of `count` for `zobrist` at `depth` into a bucket of empty
/// entries, a lookup at `depth` finds `count`, and a lookup at any other depth
/// finds nothing when the hash has bits above its four lowest.
pub proof fn lemma_perft_fresh_round_trip(b: Seq<(u64, u64)>, zobrist: u64, count: u64, depth: u8, d2: u8)
    requires
        b.len() == 8,
        forall|j: int| 0 <= j < 8 ==> #[trigger] b[j] == (0u64, 0u64),
        depth < 16,
        d2 < 16,
    ensures
        ({
            let nb = b.update(perft_scan(b, 8).0, perft_entry(perft_key(zobrist, depth), count));
            &&& perft_find(nb, perft_key(zobrist, depth), 8) >= 0
            &&& nb[perft_find(nb, perft_key(zobrist, depth), 8)].1 == count
            &&& (zobrist & !0xfu64) != 0 && d2 != depth ==> perft_find(nb, perft_key(zobrist, d2), 8)
                == -1
        }),
{
    let key = perft_key(zobrist, depth);
    let key2 = perft_key(zobrist, d2);
    reveal_with_fuel(perft_scan, 9);
    assert(((0u64 ^ 0u64) as u8) & 0xf == 0 && (0u64 ^ 0u64) == 0 && (d2 != depth && (zobrist
        & !0xfu64) != 0 ==> key != key2 && key2 != 0)) by (bit_vector)
        requires
            key == (zobrist & !0xfu64) | (depth as u64),
            key2 == (zobrist & !0xfu64) | (d2 as u64),
            depth < 16,
            d2 < 16,
    ;
    assert(entry_depth((0u64, 0u64)) == 0);
    assert(perft_scan(b, 1) == (0int, 0u8));
    assert(perft_scan(b, 8).0 == 0) by {
        assert(perft_scan(b, 2) == (0int, 0u8));
        assert(perft_scan(b, 3) == (0int, 0u8));
        assert(perft_scan(b, 4) == (0int, 0u8));
        assert(perft_scan(b, 5) == (0int, 0u8));
        assert(perft_scan(b, 6) == (0int, 0u8));
        assert(perft_scan(b, 7) == (0int, 0u8));
    }
    let nb = b.update(0, perft_entry(key, count));
    lemma_perft_read_after_write(b, 0, key, count);
    lemma_perft_find(nb, key, 8);
    assert(perft_find(nb, key, 8) == 0);
    if (zobrist & !0xfu64) != 0 && d2 != depth {
        lemma_perft_find(nb, key2, 8);
        assert forall|j: int| 0 <= j < 8 implies nb[j].0 ^ nb[j].1 != key2 by {
            if j > 0 {
                assert(nb[j] == b[j]);
            }
        }
    }
}

} // verus!
