//! Bit manipulation primitives on 64-bit boards.
use vstd::prelude::*;

verus! {

/// Bit `i` of `x` as a boolean.
pub open spec fn has_bit(x: u64, i: u64) -> bool {
    (x >> i) & 1 == 1
}

/// The board with only square `i` set.
pub open spec fn bit(i: u64) -> u64 {
    1u64 << i
}

/// Squares `0..n`.
pub open spec fn low_mask(n: u64) -> u64 {
    ((1u64 << n) - 1) as u64
}

/// Two's complement negation.
pub open spec fn neg(x: u64) -> u64 {
    (0 - x) as u64
}

/// Bitwise operations act square by square.
pub proof fn lemma_bit_ops(x: u64, y: u64, q: u64)
    requires
        q < 64,
    ensures
        has_bit(x ^ y, q) == (has_bit(x, q) != has_bit(y, q)),
        has_bit(x & y, q) == (has_bit(x, q) && has_bit(y, q)),
        has_bit(x | y, q) == (has_bit(x, q) || has_bit(y, q)),
        has_bit(!x, q) == !has_bit(x, q),
        has_bit(x, q) ==> x != 0,
        has_bit(x, q) ==> x & y != 0 || !has_bit(y, q),
        has_bit(bit(q), q),
        has_bit(x, q) ==> (x & bit(q)) != 0,
        !has_bit(x, q) ==> (x & bit(q)) == 0,
        (x >> q) & 1 != 0 ==> has_bit(x, q),
        x | 1 != 0,
        x ^ y == 0 ==> x == y,
        !has_bit(0, q),
{
    assert({
        &&& has_bit(x ^ y, q) == (has_bit(x, q) != has_bit(y, q))
        &&& has_bit(x & y, q) == (has_bit(x, q) && has_bit(y, q))
        &&& has_bit(x | y, q) == (has_bit(x, q) || has_bit(y, q))
        &&& has_bit(!x, q) == !has_bit(x, q)
        &&& has_bit(x, q) ==> x != 0
        &&& has_bit(x, q) ==> x & y != 0 || !has_bit(y, q)
        &&& has_bit(bit(q), q)
        &&& has_bit(x, q) ==> (x & bit(q)) != 0
        &&& !has_bit(x, q) ==> (x & bit(q)) == 0
        &&& (x >> q) & 1 != 0 ==> has_bit(x, q)
        &&& x | 1 != 0
        &&& x ^ y == 0 ==> x == y
        &&& !has_bit(0, q)
    }) by (bit_vector)
        requires
            q < 64,
    ;
}

/// Exclusive or is associative and commutative, has zero as identity, and
/// undoes itself.
pub proof fn lemma_xor(a: u64, b: u64, c: u64)
    ensures
        (a ^ b) ^ c == a ^ (b ^ c),
        a ^ b == b ^ a,
        a ^ 0 == a,
        (a ^ b) ^ b == a,
{
    assert((a ^ b) ^ c == a ^ (b ^ c) && a ^ b == b ^ a && a ^ 0 == a && (a ^ b) ^ b == a)
        by (bit_vector);
}

/// Boards with the same squares set are equal.
pub proof fn lemma_bits_ext(x: u64, y: u64)
    requires
        forall|q: u64| q < 64 ==> #[trigger] has_bit(x, q) == has_bit(y, q),
    ensures
        x == y,
{
    let z = x ^ y;
    if z != 0 {
        lemma_ls1b(z);
        let q = z.trailing_zeros() as u64;
        lemma_bit_ops(x, y, q);
        assert(has_bit(x, q) == has_bit(y, q));
    } else {
        lemma_bit_ops(x, y, 0);
    }
}

/// A single-square board has exactly that square set.
pub proof fn lemma_bit_single(i: u64, q: u64)
    requires
        i < 64,
        q < 64,
    ensures
        has_bit(bit(i), q) == (i == q),
        bit(i) != 0,
        bit(i) >= 1,
{
    assert(has_bit(bit(i), q) == (i == q) && bit(i) != 0 && bit(i) >= 1) by (bit_vector)
        requires
            i < 64,
            q < 64,
    ;
}

/// Facts about boards whose low squares are empty.
pub proof fn lemma_low_clear(x: u64, y: u64, n: u64, t: u64)
    requires
        n < 64,
    ensures
        x & low_mask(n) == 0 && t < 64 && has_bit(x, t) ==> t >= n,
        x & low_mask(n) == 0 ==> (x & ((x - 1) as u64)) & low_mask(n) == 0,
        (y << n) & low_mask(n) == 0,
        x & low_mask(n) == 0 ==> (x & y) & low_mask(n) == 0 && (y & x) & low_mask(n) == 0,
        n + 8 < 64 && x & low_mask(n) == 0 ==> (x << 8u64) & low_mask((n + 8) as u64) == 0,
{
    assert({
        &&& x & low_mask(n) == 0 && t < 64 && has_bit(x, t) ==> t >= n
        &&& x & low_mask(n) == 0 ==> (x & ((x - 1) as u64)) & low_mask(n) == 0
        &&& (y << n) & low_mask(n) == 0
        &&& x & low_mask(n) == 0 ==> (x & y) & low_mask(n) == 0 && (y & x) & low_mask(n) == 0
        &&& n + 8 < 64 && x & low_mask(n) == 0 ==> (x << 8u64) & low_mask((n + 8) as u64) == 0
    }) by (bit_vector)
        requires
            n < 64,
    ;
}

/// Arithmetic facts about a square index.
pub proof fn lemma_square_index(i: u64)
    requires
        i < 64,
    ensures
        i & 7 < 8,
        i & 7 == i % 8,
        i & 56 < 64,
        i & 56 == i - i % 8,
        i / 8 < 8,
        i >> 3 == i / 8,
        i ^ 1 < 64,
        bit(i) >= 1,
        (i as u16) << 6u16 == (i as u16) * 64,
{
    assert({
        &&& i & 7 < 8
        &&& i & 7 == i % 8
        &&& i & 56 < 64
        &&& i & 56 == i - i % 8
        &&& i / 8 < 8
        &&& i >> 3 == i / 8
        &&& i ^ 1 < 64
        &&& bit(i) >= 1
        &&& (i as u16) << 6u16 == (i as u16) * 64
    }) by (bit_vector)
        requires
            i < 64,
    ;
}

/// Byte-reversal of a 64-bit word (the board mirrored vertically).
pub open spec fn spec_swap_bytes(x: u64) -> u64 {
    ((x & 0xff) << 56) | (((x >> 8) & 0xff) << 48) | (((x >> 16) & 0xff) << 40) | (((x
        >> 24) & 0xff) << 32) | (((x >> 32) & 0xff) << 24) | (((x >> 40) & 0xff) << 16) | (((x
        >> 48) & 0xff) << 8) | ((x >> 56) & 0xff)
}

/// Reverses the byte order of `x`.
pub fn swap_bytes(x: u64) -> (r: u64)
    ensures
        r == spec_swap_bytes(x),
{
    ((x & 0xff) << 56) | (((x >> 8) & 0xff) << 48) | (((x >> 16) & 0xff) << 40) | (((x >> 24)
        & 0xff) << 32) | (((x >> 32) & 0xff) << 24) | (((x >> 40) & 0xff) << 16) | (((x >> 48)
        & 0xff) << 8) | ((x >> 56) & 0xff)
}

/// Wrapping subtraction agrees with truncation of the exact difference.
pub proof fn lemma_wrapping_sub(x: u64, y: u64)
    ensures
        x.wrapping_sub(y) == (x - y) as u64,
{
    assert(x.wrapping_sub(y) == (x - y) as u64) by (bit_vector);
}

/// Index of the highest set bit, as given by the leading zero count.
pub open spec fn ms1b_spec(x: u64) -> u64 {
    (63 - vstd::std_specs::bits::u64_leading_zeros(x)) as u64
}

/// `j` is the position of the highest set bit of `x`.
pub open spec fn is_ms1b(x: u64, j: u64) -> bool {
    j < 64 && (x >> j) & 1 == 1 && (x >> j) >> 1 == 0
}

/// `j` is the position of the lowest set bit of `x`.
pub open spec fn is_ls1b(x: u64, j: u64) -> bool {
    j < 64 && (x >> j) & 1 == 1 && x << (64 - j) as u64 == 0
}

pub proof fn lemma_ms1b(x: u64)
    requires
        x != 0,
    ensures
        is_ms1b(x, ms1b_spec(x)),
{
    vstd::std_specs::bits::axiom_u64_leading_zeros(x);
    let lz = vstd::std_specs::bits::u64_leading_zeros(x);
    let l = lz as u64;
    let j = (63 - l) as u64;
    assert(l < 64 && (x >> ((63 - l) as u64)) & 1 != 0 && x >> ((64 - l) as u64) == 0 ==> ((x >> ((
    63 - l) as u64)) >> 1 == 0 && (x >> ((63 - l) as u64)) & 1 == 1)) by (bit_vector);
}

/// The lowest set bit and its square index.
pub proof fn lemma_ls1b(x: u64)
    requires
        x != 0,
    ensures
        is_ls1b(x, x.trailing_zeros() as u64),
        x.trailing_zeros() < 64,
        has_bit(x, x.trailing_zeros() as u64),
{
    vstd::std_specs::bits::axiom_u64_trailing_zeros(x);
}

/// Index of the least significant set bit (64 for an empty board).
pub fn ls1b_scan(bb: u64) -> (r: u16)
    ensures
        r as u32 == bb.trailing_zeros(),
        r <= 64,
        bb == 0 <==> r == 64,
        bb != 0 ==> is_ls1b(bb, r as u64),
{
    proof {
        vstd::std_specs::bits::axiom_u64_trailing_zeros(bb);
    }
    bb.trailing_zeros() as u16
}

/// Index of the most significant set bit (127 for an empty board).
pub fn ms1b_scan(bb: u64) -> (r: u16)
    ensures
        bb != 0 ==> r as u64 == ms1b_spec(bb) && is_ms1b(bb, r as u64),
        bb == 0 ==> r == 127,
{
    proof {
        vstd::std_specs::bits::axiom_u64_leading_zeros(bb);
    }
    let lz = bb.leading_zeros() as u16;
    proof {
        if bb != 0 {
            lemma_ms1b(bb);
        }
        assert((lz < 64 ==> 63 ^ lz == 63 - lz) && (lz == 64 ==> 63 ^ lz == 127)) by (bit_vector);
    }
    63 ^ lz
}

/// Number of set bits.
pub open spec fn popcount(x: u64) -> nat
    decreases x,
{
    if x == 0 {
        0
    } else {
        popcount(x / 2) + (x % 2) as nat
    }
}

/// Counts the set bits of `x`.
pub fn count_ones(x: u64) -> (r: u32)
    ensures
        r as nat == popcount(x),
        r <= 64,
{
    let mut y = x;
    let mut c: u32 = 0;
    let mut k: u64 = 0;
    assert(x >> 0u64 == x && x >> 64u64 == 0) by (bit_vector);
    while k < 64
        invariant
            k <= 64,
            y == x >> k,
            c as nat + popcount(y) == popcount(x),
            c <= k,
        decreases 64 - k,
    {
        proof {
            assert(y / 2 == y >> 1 && y % 2 == y & 1 && y & 1 <= 1 && (k < 64 ==> (x >> k) >> 1
                == x >> ((k + 1) as u64))) by (bit_vector)
                requires
                    y == x >> k,
            ;
        }
        c = c + (y & 1) as u32;
        y = y >> 1;
        k = k + 1;
    }
    c
}

/// `bb` with its lowest set bit cleared.
pub open spec fn clear_ls1b(bb: u64) -> u64 {
    bb & ((bb - 1) as u64)
}

pub proof fn lemma_clear_ls1b(bb: u64)
    requires
        bb != 0,
    ensures
        clear_ls1b(bb) < bb,
        forall|j: u64| j < 64 && #[trigger] has_bit(clear_ls1b(bb), j) ==> has_bit(bb, j),
        bb.trailing_zeros() < 64,
        has_bit(bb, bb.trailing_zeros() as u64),
        !has_bit(clear_ls1b(bb), bb.trailing_zeros() as u64),
        forall|j: u64| j < bb.trailing_zeros() ==> !#[trigger] has_bit(bb, j),
        forall|j: u64|
            j < 64 && j != bb.trailing_zeros() ==> #[trigger] has_bit(clear_ls1b(bb), j) == has_bit(
                bb,
                j,
            ),
{
    vstd::std_specs::bits::axiom_u64_trailing_zeros(bb);
    let t = bb.trailing_zeros() as u64;
    assert forall|j: u64| j < 64 && j != t implies #[trigger] has_bit(clear_ls1b(bb), j) == has_bit(bb, j)
        && (j < t ==> !has_bit(bb, j)) by {
        assert(t < 64 && j < 64 && j != t && (bb >> t) & 1 == 1 && bb << ((64 - t) as u64) == 0
            ==> (((bb & ((bb - 1) as u64)) >> j) & 1 == 1) == ((bb >> j) & 1 == 1) && ((bb & ((bb
            - 1) as u64)) >> t) & 1 == 0 && (j < t ==> (bb >> j) & 1 != 1)) by (bit_vector);
    }
    assert((bb != 0 ==> bb & ((bb - 1) as u64) < bb) && (t < 64 && (bb >> t) & 1 == 1 && bb << ((64
        - t) as u64) == 0 ==> ((bb & ((bb - 1) as u64)) >> t) & 1 == 0)) by (bit_vector);
}

/// The indices of the set bits of `bb`, lowest first.
pub open spec fn bits_seq(bb: u64) -> Seq<u16>
    decreases bb,
{
    if bb == 0 {
        Seq::empty()
    } else {
        proof {
            lemma_clear_ls1b(bb);
        }
        seq![bb.trailing_zeros() as u16] + bits_seq(clear_ls1b(bb))
    }
}

/// Every listed index is a set bit of the board.
pub proof fn lemma_bits_seq(bb: u64)
    ensures
        forall|i: int|
            0 <= i < bits_seq(bb).len() ==> #[trigger] bits_seq(bb)[i] < 64 && has_bit(
                bb,
                bits_seq(bb)[i] as u64,
            ),
    decreases bb,
{
    if bb != 0 {
        lemma_clear_ls1b(bb);
        lemma_bits_seq(clear_ls1b(bb));
        let s = bits_seq(bb);
        let t = bits_seq(clear_ls1b(bb));
        assert(s == seq![bb.trailing_zeros() as u16] + t);
        assert forall|i: int| 0 <= i < s.len() implies #[trigger] s[i] < 64 && has_bit(
            bb,
            s[i] as u64,
        ) by {
            if i > 0 {
                assert(s[i] == t[i - 1]);
            }
        }
    }
}

} // verus!
