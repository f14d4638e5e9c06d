//! Single-entry transposition table: one packed entry per slot, indexed by
//! the low bits of a position's hash, sized in powers of two.
use vstd::prelude::*;
use crate::engine::consts::Score;

verus! {

/// Kinds of stored score.
pub struct Bound;

impl Bound {
    pub const LOWER: u8 = 0;
    pub const UPPER: u8 = 1;
    pub const EXACT: u8 = 2;
}

/// A decoded entry.
#[derive(Clone, Copy)]
pub struct HashResult {
    pub key: u16,
    pub mov: u16,
    pub score: i16,
    pub depth: i8,
    pub bound: u8,
}

/// The packed form of an entry: bits 0-15 key, 16-31 move, then the score
/// from bit 32 and the depth from bit 48, each widened with its sign, and
/// the bound from bit 56.
pub open spec fn encode(key: u16, m: u16, score: i16, depth: i8, bound: u8) -> u64 {
    (key as u64) | ((m as u64) << 16u64) | ((score as u64) << 32u64) | ((depth as u64) << 48u64) | ((
    bound as u64) << 56u64)
}

/// The decoded form of a packed entry.
pub open spec fn decode(raw: u64) -> HashResult {
    HashResult {
        key: raw as u16,
        mov: (raw >> 16u64) as u16,
        score: (raw >> 32u64) as i16,
        depth: (raw >> 48u64) as i8,
        bound: (raw >> 56u64) as u8,
    }
}

/// Decoding an encoded entry gives back its key, move and score; its depth
/// and bound come back too when score and depth are not negative (a negative
/// one fills the bits above it with ones).
pub proof fn lemma_encode_decode(key: u16, m: u16, score: i16, depth: i8, bound: u8)
    ensures
        decode(encode(key, m, score, depth, bound)).key == key,
        decode(encode(key, m, score, depth, bound)).mov == m,
        decode(encode(key, m, score, depth, bound)).score == score,
        score >= 0 && depth >= 0 ==> decode(encode(key, m, score, depth, bound)).depth == depth,
        score >= 0 && depth >= 0 ==> decode(encode(key, m, score, depth, bound)).bound == bound,
{
    let raw = encode(key, m, score, depth, bound);
    assert(raw as u16 == key && (raw >> 16u64) as u16 == m && (raw >> 32u64) as i16 == score && (score
        >= 0 && depth >= 0 ==> (raw >> 48u64) as i8 == depth && (raw >> 56u64) as u8 == bound))
        by (bit_vector)
        requires
            raw == (key as u64) | ((m as u64) << 16u64) | ((score as u64) << 32u64) | ((depth as u64)
                << 48u64) | ((bound as u64) << 56u64),
    ;
}

/// Shift that makes a mate score relative to the node at `ply`.
pub open spec fn adjust_spec(score: i16, ply: i16) -> int {
    if score > Score::MATE {
        ply as int
    } else if score < -Score::MATE {
        -ply
    } else {
        0
    }
}

fn adjust(score: i16, ply: i16) -> (r: i16)
    requires
        ply > i16::MIN,
    ensures
        r == adjust_spec(score, ply),
{
    if score > Score::MATE {
        ply
    } else if score < -Score::MATE {
        -ply
    } else {
        0
    }
}

/// Largest power of two not above `n` (one when `n` is zero).
pub open spec fn floor_pow2(n: nat) -> nat
    decreases n,
{
    if n < 2 {
        1
    } else {
        2 * floor_pow2(n / 2)
    }
}

proof fn lemma_floor_pow2(n: nat)
    ensures
        floor_pow2(n) >= 1,
        n >= 1 ==> floor_pow2(n) <= n,
        n >= 1 ==> n < 2 * floor_pow2(n),
    decreases n,
{
    if n >= 2 {
        lemma_floor_pow2(n / 2);
    }
}

/// Abstract contents of the table.
pub struct HashView {
    pub entries: Seq<u64>,
    pub capacity: usize,
    pub filled: usize,
}

/// One slot of the table: a packed entry, 0 when empty.
#[derive(Clone, Copy)]
struct HashEntry(u64);

impl HashEntry {
    /// The packed form of an entry.
    fn new(key: u16, m: u16, score: i16, depth: i8, bound: u8) -> (r: u64)
        ensures
            r == encode(key, m, score, depth, bound),
    {
        (key as u64) | ((m as u64) << 16) | ((score as u64) << 32) | ((depth as u64) << 48) | ((
        bound as u64) << 56)
    }

    /// The packed entry held.
    fn load(&self) -> (r: u64)
        ensures
            r == self.0,
    {
        self.0
    }
}

impl<'a> From<&'a HashEntry> for HashResult {
    fn from(value: &'a HashEntry) -> (r: Self) {
        let raw = value.load();
        HashResult {
            key: raw as u16,
            mov: (raw >> 16) as u16,
            score: (raw >> 32) as i16,
            depth: (raw >> 48) as i8,
            bound: (raw >> 56) as u8,
        }
    }
}

impl<'a> vstd::std_specs::convert::FromSpecImpl<&'a HashEntry> for HashResult {
    open spec fn obeys_from_spec() -> bool {
        true
    }

    closed spec fn from_spec(value: &'a HashEntry) -> Self {
        decode(value.0)
    }
}

/// The packed entries of a list of slots.
spec fn raw_entries(t: Seq<HashEntry>) -> Seq<u64> {
    t.map_values(|e: HashEntry| e.0)
}

#[derive(Default)]
pub struct HashTable {
    table: Vec<HashEntry>,
    capacity: usize,
    filled: usize,
}

impl View for HashTable {
    type V = HashView;

    closed spec fn view(&self) -> HashView {
        HashView { entries: raw_entries(self.table@), capacity: self.capacity, filled: self.filled }
    }
}

/// Slot of a hash in a table of `capacity` slots, a power of two.
pub open spec fn slot_of(hash: u64, capacity: usize) -> int {
    ((hash as usize) & ((capacity - 1) as usize)) as int
}

/// Whether a push of a result of `depth` under `key` replaces the entry `raw`:
/// it does unless the entry holds the same key searched deeper.
pub open spec fn replaces(raw: u64, key: u16, depth: i8) -> bool {
    key != decode(raw).key || depth >= decode(raw).depth
}

impl HashTable {
    pub closed spec fn wf(&self) -> bool {
        &&& self.table@.len() == self.capacity
        &&& self.capacity > 0
    }

    pub proof fn lemma_wf(&self)
        requires
            self.wf(),
        ensures
            self@.entries.len() == self@.capacity,
            self@.capacity > 0,
    {
    }

    /// Number of slots.
    pub fn capacity(&self) -> (r: usize)
        ensures
            r == self@.capacity,
    {
        self.capacity
    }

    /// Number of slots filled since the last clear.
    pub fn filled(&self) -> (r: usize)
        ensures
            r == self@.filled,
    {
        self.filled
    }

    /// Makes the table `size` megabytes, rounded down to a power of two, all
    /// slots empty.
    pub fn resize(&mut self, size: usize)
        requires
            floor_pow2(size as nat) * 1048576 <= usize::MAX,
        ensures
            final(self).wf(),
            final(self)@.capacity == floor_pow2(size as nat) * 131072,
            final(self)@.filled == 0,
            forall|i: int| 0 <= i < final(self)@.capacity ==> final(self)@.entries[i] == 0,
    {
        let mut p: usize = 1;
        let mut n: usize = size;
        proof {
            lemma_floor_pow2(size as nat);
        }
        while n >= 2
            invariant
                p >= 1,
                p * floor_pow2(n as nat) == floor_pow2(size as nat),
                floor_pow2(size as nat) * 1048576 <= usize::MAX,
            decreases n,
        {
            proof {
                lemma_floor_pow2(n as nat);
                lemma_floor_pow2((n / 2) as nat);
                assert(floor_pow2(n as nat) == 2 * floor_pow2((n / 2) as nat));
                assert(p * floor_pow2(n as nat) == (2 * p) * floor_pow2((n / 2) as nat)) by (nonlinear_arith)
                    requires
                        floor_pow2(n as nat) == 2 * floor_pow2((n / 2) as nat),
                ;
                assert(2 * p <= floor_pow2(size as nat)) by (nonlinear_arith)
                    requires
                        (2 * p) * floor_pow2((n / 2) as nat) == floor_pow2(size as nat),
                        floor_pow2((n / 2) as nat) >= 1,
                        p >= 1,
                ;
            }
            p = p * 2;
            n = n / 2;
        }
        assert(floor_pow2(n as nat) == 1);
        assert(p == floor_pow2(size as nat)) by (nonlinear_arith)
            requires
                floor_pow2(n as nat) == 1,
                p * floor_pow2(n as nat) == floor_pow2(size as nat),
        ;
        let capacity = p * 1024 * 1024 / 8;
        let mut table: Vec<HashEntry> = Vec::new();
        let mut i: usize = 0;
        while i < capacity
            invariant
                i <= capacity,
                table@.len() == i,
                forall|j: int| 0 <= j < i ==> table@[j].0 == 0,
            decreases capacity - i,
        {
            table.push(HashEntry(0));
            i += 1;
        }
        self.capacity = capacity;
        self.filled = 0;
        self.table = table;
    }

    /// Empties every slot.
    pub fn clear(&mut self)
        requires
            old(self).wf(),
        ensures
            final(self).wf(),
            final(self)@.capacity == old(self)@.capacity,
            final(self)@.filled == 0,
            forall|i: int| 0 <= i < final(self)@.capacity ==> final(self)@.entries[i] == 0,
    {
        self.filled = 0;
        let n = self.table.len();
        let mut i: usize = 0;
        while i < n
            invariant
                i <= n,
                n == self.table@.len(),
                self.wf(),
                self.capacity == old(self).capacity,
                self.filled == 0,
                forall|j: int| 0 <= j < i ==> self.table@[j].0 == 0,
            decreases n - i,
        {
            self.table.set(i, HashEntry(0));
            i += 1;
        }
    }

    /// Stores a result for the position with hash `hash`, found at `ply`,
    /// unless its slot holds the same position searched deeper.
    pub fn push(&mut self, hash: u64, m: u16, depth: i8, bound: u8, score: i16, ply: i16)
        requires
            old(self).wf(),
            ply > i16::MIN,
            i16::MIN <= score + adjust_spec(score, ply) <= i16::MAX,
        ensures
            final(self).wf(),
            final(self)@.capacity == old(self)@.capacity,
            ({
                let i = slot_of(hash, old(self)@.capacity);
                let raw = old(self)@.entries[i];
                let key = (hash >> 48u64) as u16;
                if replaces(raw, key, depth) {
                    &&& final(self)@.entries == old(self)@.entries.update(
                        i,
                        encode(key, m, (score + adjust_spec(score, ply)) as i16, depth, bound),
                    )
                    &&& final(self)@.filled == if raw == 0 {
                        old(self)@.filled.wrapping_add(1)
                    } else {
                        old(self)@.filled
                    }
                } else {
                    final(self)@ == old(self)@
                }
            }),
    {
        let key = (hash >> 48) as u16;
        let idx = (hash as usize) & (self.capacity - 1);
        proof {
            lemma_and_bound(hash as usize, (self.capacity - 1) as usize);
        }
        let raw = self.table[idx].load();
        let old_key = raw as u16;
        let old_depth = (raw >> 48) as i8;
        if key != old_key || depth >= old_depth {
            let s = score + adjust(score, ply);
            if raw == 0 {
                self.filled = self.filled.wrapping_add(1);
            }
            let e = HashEntry::new(key, m, s, depth, bound);
            self.table.set(idx, HashEntry(e));
            assert(raw_entries(self.table@) =~= raw_entries(old(self).table@).update(idx as int, e));
        }
    }

    /// The entry in the slot of `hash`, probed at `ply`, if it holds `hash`'s key.
    pub fn probe(&self, zobrist: u64, ply: i16) -> (r: Option<HashResult>)
        requires
            self.wf(),
            ply > i16::MIN,
            ({
                let e = decode(self@.entries[slot_of(zobrist, self@.capacity)]);
                e.key == (zobrist >> 48u64) as u16 ==> i16::MIN <= e.score - adjust_spec(e.score, ply)
                    <= i16::MAX
            }),
        ensures
            ({
                let e = decode(self@.entries[slot_of(zobrist, self@.capacity)]);
                &&& e.key == (zobrist >> 48u64) as u16 ==> r == Some(
                    HashResult { score: (e.score - adjust_spec(e.score, ply)) as i16, ..e },
                )
                &&& e.key != (zobrist >> 48u64) as u16 ==> r is None
            }),
    {
        let idx = (zobrist as usize) & (self.capacity - 1);
        proof {
            lemma_and_bound(zobrist as usize, (self.capacity - 1) as usize);
        }
        let mut entry = HashResult::from(&self.table[idx]);
        if entry.key == (zobrist >> 48) as u16 {
            entry.score = entry.score - adjust(entry.score, ply);
            return Some(entry);
        }
        None
    }
}

proof fn lemma_and_bound(x: usize, m: usize)
    ensures
        x & m <= m,
{
    assert(x & m <= m) by (bit_vector);
}

/// After a push that replaces an entry, probing the same hash finds it, with
/// its move and, when the score is not a mate score, its score.
pub proof fn lemma_probe_after_push(hash: u64, m: u16, score: i16, depth: i8, bound: u8)
    ensures
        decode(encode((hash >> 48u64) as u16, m, score, depth, bound)).key == (hash >> 48u64) as u16,
        decode(encode((hash >> 48u64) as u16, m, score, depth, bound)).mov == m,
        decode(encode((hash >> 48u64) as u16, m, score, depth, bound)).score == score,
{
    lemma_encode_decode((hash >> 48u64) as u16, m, score, depth, bound);
}

/// A shallower result for the same position never replaces a deeper one: a
/// push under the key of a stored entry, with a depth below the stored depth,
/// leaves the slot alone (when the stored score and depth are not negative).
pub proof fn lemma_shallower_push_kept(key: u16, m: u16, score: i16, depth: i8, bound: u8, d2: i8)
    requires
        score >= 0,
        depth >= 0,
        d2 < depth,
    ensures
        !replaces(encode(key, m, score, depth, bound), key, d2),
{
    lemma_encode_decode(key, m, score, depth, bound);
}

} // verus!
