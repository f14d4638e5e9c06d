//! Internal encodings written as text.
use vstd::prelude::*;
use crate::engine::util::push_char;
use super::file_letter;

verus! {

/// Decimal digits of `n`.
pub open spec fn decimal(n: nat) -> Seq<char>
    decreases n,
{
    if n < 10 {
        seq![(48 + n) as char]
    } else {
        decimal(n / 10).push((48 + n % 10) as char)
    }
}

/// Appends the decimal digits of `n`.
pub(crate) fn push_decimal(s: &mut String, n: u64)
    ensures
        final(s)@ == old(s)@ + decimal(n as nat),
    decreases n,
{
    if n >= 10 {
        push_decimal(s, n / 10);
    }
    let d = (n % 10) as u32;
    let c = (48 + d) as u8 as char;
    push_char(s, c);
    assert(s@ =~= old(s)@ + decimal(n as nat));
}

/// Name of square `idx`: its file letter and its rank in decimal.
pub open spec fn sq_name(idx: u16) -> Seq<char> {
    seq![file_letter((idx & 7) as int)] + decimal(((idx >> 3u16) + 1) as nat)
}

/// The name of square `idx`, such as `e4`.
pub fn idx_to_sq(idx: u16) -> (r: String)
    ensures
        r@ == sq_name(idx),
{
    let mut s = String::new();
    let rank = idx >> 3;
    let file = idx & 7;
    proof {
        assert(file < 8 && rank < 8192) by (bit_vector)
            requires
                file == idx & 7,
                rank == idx >> 3u16,
        ;
    }
    push_char(&mut s, (97 + file as u8) as char);
    push_decimal(&mut s, (rank + 1) as u64);
    assert(s@ =~= sq_name(idx));
    s
}

/// Letter of a promotion piece.
pub open spec fn promo_letter(k: int) -> char {
    if k == 0 {
        'n'
    } else if k == 1 {
        'b'
    } else if k == 2 {
        'r'
    } else {
        'q'
    }
}

/// A move, from square first (low six bits) then to square, the promotion
/// letter if the top bit is set, and a space.
pub open spec fn move_name(m: u16) -> Seq<char> {
    sq_name(m & 0b111111) + sq_name((m >> 6u16) & 0b111111) + (if m & 0x8000 > 0 {
        seq![promo_letter(((m >> 12u16) & 3) as int)]
    } else {
        Seq::empty()
    }) + seq![' ']
}

/// A move in the notation of the interface.
pub fn u16_to_uci(m: &u16) -> (r: String)
    ensures
        r@ == move_name(*m),
{
    let m = *m;
    let mut s = idx_to_sq(m & 0b111111);
    let to = idx_to_sq((m >> 6) & 0b111111);
    let n = to.as_str().unicode_len();
    let mut i: usize = 0;
    let ghost start = s@;
    while i < n
        invariant
            i <= n,
            n == to@.len(),
            s@ == start + to@.take(i as int),
        decreases n - i,
    {
        let c = to.as_str().get_char(i);
        push_char(&mut s, c);
        assert(to@.take(i + 1) =~= to@.take(i as int).push(c));
        i += 1;
    }
    assert(to@.take(n as int) =~= to@);
    let ghost mid = s@;
    if m & 0x8000 > 0 {
        let k = (m >> 12) & 3;
        let c = if k == 0 {
            'n'
        } else if k == 1 {
            'b'
        } else if k == 2 {
            'r'
        } else {
            'q'
        };
        push_char(&mut s, c);
    }
    push_char(&mut s, ' ');
    assert(s@ =~= move_name(m));
    s
}

} // verus!
