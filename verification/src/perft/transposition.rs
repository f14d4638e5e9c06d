//! Perft transposition table returning its hits as results.
use vstd::prelude::*;
use crate::hash::perft::{
    lemma_perft_find_persists, lemma_perft_scan, perft_bucket_of, perft_entry, perft_find, perft_key,
    perft_scan,
};

verus! {

/// Entries per bucket.
pub const ENTRIES_PER_BUCKET: usize = 8;

/// Bytes per bucket.
pub const BUCKET_SIZE: usize = 128;

/// One entry: the key word (key XOR count) and the count.
#[derive(Clone, Copy, Default)]
pub struct PerftTTEntry {
    pub key: u64,
    pub data: u64,
}

/// A bucket of entries.
#[derive(Clone, Copy, Default)]
pub struct PerftTTBucket {
    pub entries: [PerftTTEntry; 8],
}

/// A hit: the stored count.
#[derive(Default)]
pub struct PerftTTResult {
    pub count: u64,
}

impl PerftTTResult {
    fn new(count: u64) -> (r: Self)
        ensures
            r.count == count,
    {
        Self { count }
    }
}

/// The entries of a bucket as pairs.
pub open spec fn bucket_pairs(b: PerftTTBucket) -> Seq<(u64, u64)> {
    b.entries@.map_values(|e: PerftTTEntry| (e.key, e.data))
}

pub struct PerftTT {
    pub table: Vec<PerftTTBucket>,
    pub num_buckets: usize,
}

impl PerftTT {
    /// Abstract contents: the entries of each bucket.
    pub open spec fn buckets(&self) -> Seq<Seq<(u64, u64)>> {
        self.table@.map_values(|b: PerftTTBucket| bucket_pairs(b))
    }

    pub open spec fn wf(&self) -> bool {
        &&& self.table@.len() == self.num_buckets
        &&& self.num_buckets > 0
    }

    /// A table of `size` bytes in buckets of `BUCKET_SIZE` bytes, all empty.
    pub fn new(size: usize) -> (r: Self)
        ensures
            r.num_buckets == size / BUCKET_SIZE,
            r.table@.len() == size / BUCKET_SIZE,
            forall|i: int, j: int| 0 <= i < r.table@.len() && 0 <= j < 8 ==> r.buckets()[i][j] == (
            0u64, 0u64),
    {
        let num_buckets = size / BUCKET_SIZE;
        let mut table: Vec<PerftTTBucket> = Vec::new();
        let mut i: usize = 0;
        while i < num_buckets
            invariant
                i <= num_buckets,
                table@.len() == i,
                forall|k: int, j: int| 0 <= k < i && 0 <= j < 8 ==> (#[trigger] table@[k].entries@[j]) == (
                PerftTTEntry { key: 0, data: 0 }),
            decreases num_buckets - i,
        {
            table.push(PerftTTBucket { entries: [PerftTTEntry { key: 0, data: 0 }; 8] });
            i += 1;
        }
        let r = PerftTT { table, num_buckets };
        assert forall|i: int, j: int| 0 <= i < r.table@.len() && 0 <= j < 8 implies r.buckets()[i][j] == (
        0u64, 0u64) by {
            assert(r.table@[i].entries@[j] == PerftTTEntry { key: 0, data: 0 });
        }
        r
    }

    /// Stores `count` for the position with hash `zobrist` at `depth`, over
    /// the first entry of least recorded depth in its bucket.
    pub fn push(&mut self, zobrist: u64, count: u64, depth: u8)
        requires
            old(self).wf(),
        ensures
            final(self).wf(),
            final(self).num_buckets == old(self).num_buckets,
            ({
                let b = perft_bucket_of(zobrist, old(self).num_buckets as int);
                let old_b = old(self).buckets()[b];
                let (idx, _s) = perft_scan(old_b, 8);
                final(self).buckets() == old(self).buckets().update(
                    b,
                    old_b.update(idx, perft_entry(perft_key(zobrist, depth), count)),
                )
            }),
    {
        let index = (zobrist as usize) % self.num_buckets;
        let mut bucket = self.table[index];
        let ghost b = bucket_pairs(bucket);
        assert(b == self.buckets()[index as int]);
        let mut smallest_depth: u8 = u8::MAX;
        let mut desired_index: usize = 0;
        let mut i: usize = 0;
        while i < ENTRIES_PER_BUCKET
            invariant
                i <= 8,
                b == bucket_pairs(bucket),
                b.len() == 8,
                (desired_index as int, smallest_depth) == perft_scan(b, i as int),
            decreases 8 - i,
        {
            proof {
                lemma_perft_scan(b, i as int);
            }
            let entry_key = bucket.entries[i].key;
            let entry_data = bucket.entries[i].data;
            let entry_depth = ((entry_key ^ entry_data) as u8) & 0xf;
            if entry_depth < smallest_depth {
                smallest_depth = entry_depth;
                desired_index = i;
            }
            i += 1;
        }
        proof {
            lemma_perft_scan(b, 8);
        }
        let key = (zobrist & !0xf) | (depth as u64);
        let data = count;
        bucket.entries[desired_index] = PerftTTEntry { key: key ^ data, data };
        self.table.set(index, bucket);
        proof {
            assert(bucket_pairs(bucket) =~= b.update(
                desired_index as int,
                perft_entry(perft_key(zobrist, depth), count),
            ));
            assert(self.buckets() =~= old(self).buckets().update(
                index as int,
                b.update(desired_index as int, perft_entry(perft_key(zobrist, depth), count)),
            ));
        }
    }

    /// The count stored for the position with hash `zobrist` at `depth`: that
    /// of the first entry of its bucket with its key, if any.
    pub fn get(&self, zobrist: u64, depth: u8) -> (r: Option<PerftTTResult>)
        requires
            self.wf(),
        ensures
            ({
                let b = self.buckets()[perft_bucket_of(zobrist, self.num_buckets as int)];
                let k = perft_find(b, perft_key(zobrist, depth), 8);
                &&& k >= 0 ==> (r matches Some(res) && res.count == b[k].1)
                &&& k < 0 ==> r is None
            }),
    {
        let index = (zobrist as usize) % self.num_buckets;
        let bucket = self.table[index];
        let ghost b = bucket_pairs(bucket);
        let ghost key = perft_key(zobrist, depth);
        assert(b == self.buckets()[index as int]);
        let mut i: usize = 0;
        while i < ENTRIES_PER_BUCKET
            invariant
                i <= 8,
                b == bucket_pairs(bucket),
                b.len() == 8,
                b == self.buckets()[perft_bucket_of(zobrist, self.num_buckets as int)],
                key == perft_key(zobrist, depth),
                perft_find(b, key, i as int) == -1,
            decreases 8 - i,
        {
            let entry_key = bucket.entries[i].key;
            let entry_data = bucket.entries[i].data;
            let k = (zobrist & !0xf) | (depth as u64);
            if (entry_key ^ entry_data) == k {
                proof {
                    assert forall|n: int| i + 1 <= n <= 8 implies #[trigger] perft_find(b, key, n) == i by {
                        lemma_perft_find_persists(b, key, i as int + 1, n);
                    }
                }
                return Some(PerftTTResult::new(entry_data));
            }
            i += 1;
        }
        None
    }
}

} // verus!
