//! How full the search's transposition table is: the count of filled entries
//! that `HashTable` keeps, set against the entries actually in use.
use vstd::prelude::*;
use super::search::{
    HashTableView,
    replace_scan,
    replace_index,
    lemma_replace_scan_range,
    depth_of,
    pack,
    key_from,
    bucket_of,
    score_to_store,
    lemma_pack_unpack,
};

verus! {

/// Whether an entry is in use: an entry of depth zero counts as empty.
pub open spec fn in_use(e: u64) -> nat {
    if depth_of(e) != 0 {
        1
    } else {
        0
    }
}

/// Entries in use among the first `n` of a bucket.
pub open spec fn used_in(b: Seq<u64>, n: int) -> nat
    decreases n,
{
    if n <= 0 {
        0
    } else {
        used_in(b, n - 1) + in_use(b[n - 1])
    }
}

/// Entries in use in the first `n` buckets.
pub open spec fn used_count(bs: Seq<Seq<u64>>, n: int) -> nat
    decreases n,
{
    if n <= 0 {
        0
    } else {
        used_count(bs, n - 1) + used_in(bs[n - 1], 8)
    }
}

proof fn lemma_used_in_bound(b: Seq<u64>, n: int)
    requires
        n >= 0,
    ensures
        used_in(b, n) <= n,
    decreases n,
{
    if n > 0 {
        lemma_used_in_bound(b, n - 1);
    }
}

proof fn lemma_used_in_update(b: Seq<u64>, idx: int, e: u64, n: int)
    requires
        0 <= idx < b.len(),
        0 <= n <= b.len(),
    ensures
        idx < n ==> used_in(b.update(idx, e), n) + in_use(b[idx]) == used_in(b, n) + in_use(e),
        idx >= n ==> used_in(b.update(idx, e), n) == used_in(b, n),
    decreases n,
{
    if n > 0 {
        lemma_used_in_update(b, idx, e, n - 1);
    }
}

proof fn lemma_used_count_bound(bs: Seq<Seq<u64>>, n: int)
    requires
        n >= 0,
    ensures
        used_count(bs, n) <= 8 * n,
    decreases n,
{
    if n > 0 {
        lemma_used_count_bound(bs, n - 1);
        lemma_used_in_bound(bs[n - 1], 8);
    }
}

proof fn lemma_used_count_update(bs: Seq<Seq<u64>>, bi: int, nb: Seq<u64>, n: int)
    requires
        0 <= bi < bs.len(),
        0 <= n <= bs.len(),
    ensures
        bi < n ==> used_count(bs.update(bi, nb), n) + used_in(bs[bi], 8) == used_count(bs, n) + used_in(
            nb,
            8,
        ),
        bi >= n ==> used_count(bs.update(bi, nb), n) == used_count(bs, n),
    decreases n,
{
    if n > 0 {
        lemma_used_count_update(bs, bi, nb, n - 1);
    }
}

proof fn lemma_scan_fills_empty(b: Seq<u64>, key: u16, depth: i8, n: int)
    requires
        n >= 0,
    ensures
        replace_scan(b, key, depth, n).3 ==> depth_of(b[replace_scan(b, key, depth, n).0]) == 0,
    decreases n,
{
    if n > 0 {
        lemma_scan_fills_empty(b, key, depth, n - 1);
    }
}

/// The count of filled entries never runs ahead of the entries in use, so
/// long as no result of depth zero is stored: a push of depth one or more
/// keeps `filled` at most the number of entries in use, which is at most the
/// number of entries. A new or cleared table starts with `filled` at zero.
pub proof fn lemma_push_keeps_fill_bound(
    before: HashTableView,
    after: HashTableView,
    zobrist: u64,
    best_move: u16,
    depth: i8,
    bound: u8,
    score: i16,
    ply: i8,
)
    requires
        before.buckets.len() > 0,
        forall|i: int| 0 <= i < before.buckets.len() ==> (#[trigger] before.buckets[i]).len() == 8,
        before.num_entries == 8 * before.buckets.len(),
        before.filled <= used_count(before.buckets, before.buckets.len() as int),
        depth >= 1,
        replace_index(
            before.buckets[bucket_of(zobrist, before.buckets.len() as int)],
            key_from(zobrist),
            depth,
        ) >= 0,
        ({
            let b = bucket_of(zobrist, before.buckets.len() as int);
            let old_b = before.buckets[b];
            let (idx, _s, _stop, fills) = replace_scan(old_b, key_from(zobrist), depth, 8);
            &&& after.buckets == before.buckets.update(
                b,
                old_b.update(
                    idx,
                    pack(key_from(zobrist), best_move, depth, bound, score_to_store(score, ply) as i16),
                ),
            )
            &&& after.filled == if fills {
                before.filled.wrapping_add(1)
            } else {
                before.filled
            }
            &&& after.num_entries == before.num_entries
        }),
    ensures
        after.buckets.len() == before.buckets.len(),
        forall|i: int| 0 <= i < after.buckets.len() ==> (#[trigger] after.buckets[i]).len() == 8,
        after.num_entries == 8 * after.buckets.len(),
        after.filled <= used_count(after.buckets, after.buckets.len() as int),
        used_count(after.buckets, after.buckets.len() as int) <= after.num_entries,
{
    let n = before.buckets.len() as int;
    let bi = bucket_of(zobrist, n);
    let key = key_from(zobrist);
    let old_b = before.buckets[bi];
    let (idx, _s, _stop, fills) = replace_scan(old_b, key, depth, 8);
    lemma_replace_scan_range(old_b, key, depth, 8);
    lemma_scan_fills_empty(old_b, key, depth, 8);
    let e = pack(key, best_move, depth, bound, score_to_store(score, ply) as i16);
    lemma_pack_unpack(key, best_move, depth, bound, score_to_store(score, ply) as i16);
    assert(in_use(e) == 1);
    let nb = old_b.update(idx, e);
    lemma_used_in_update(old_b, idx, e, 8);
    lemma_used_count_update(before.buckets, bi, nb, n);
    lemma_used_count_bound(after.buckets, n);
    assert forall|i: int| 0 <= i < after.buckets.len() implies (#[trigger] after.buckets[i]).len() == 8 by {
        if i != bi {
            assert(after.buckets[i] == before.buckets[i]);
        }
    }
    if fills {
        assert(in_use(old_b[idx]) == 0);
        assert(before.filled + 1 <= used_count(after.buckets, n));
    }
}

/// Permille of a count of filled entries that does not exceed the entries
/// of the table: between 0 and 1000.
pub proof fn lemma_permille_bounded(filled: u64, num_entries: usize)
    requires
        num_entries > 0,
        filled <= num_entries,
    ensures
        0 <= filled * 1000 / (num_entries as int) <= 1000,
{
    assert(filled * 1000 / (num_entries as int) <= 1000) by (nonlinear_arith)
        requires
            num_entries > 0,
            filled <= num_entries,
    ;
}

} // verus!
