//! Bitboards: one bit per square, bit index `rank * 8 + file` (a1 = 0, h8 = 63).
//!
//! A bitboard `b` is read through `has_sq(b, s)`, which says whether square `s`
//! is set. The one-step shifts and the leaper patterns are specified square by
//! square over the geometry of the board.
use vstd::prelude::*;

verus! {

pub const DARK_SQS: u64 = 0xAA55AA55AA55AA55;
pub const LIGHT_SQS: u64 = !0xAA55AA55AA55AA55u64;

pub const FILE_A: u64 = 0x0101010101010101;
pub const FILE_B: u64 = 0x0202020202020202;
pub const FILE_C: u64 = 0x0404040404040404;
pub const FILE_D: u64 = 0x0808080808080808;
pub const FILE_E: u64 = 0x1010101010101010;
pub const FILE_F: u64 = 0x2020202020202020;
pub const FILE_G: u64 = 0x4040404040404040;
pub const FILE_H: u64 = 0x8080808080808080;

pub const RANK_1: u64 = 0x00000000000000FF;
pub const RANK_2: u64 = 0x000000000000FF00;
pub const RANK_3: u64 = 0x0000000000FF0000;
pub const RANK_4: u64 = 0x00000000FF000000;
pub const RANK_5: u64 = 0x000000FF00000000;
pub const RANK_6: u64 = 0x0000FF0000000000;
pub const RANK_7: u64 = 0x00FF000000000000;
pub const RANK_8: u64 = 0xFF00000000000000;

pub const QUEEN_SIDE: u64 = FILE_A | FILE_B | FILE_C | FILE_D;
pub const KING_SIDE: u64 = FILE_E | FILE_F | FILE_G | FILE_H;
pub const CENTRE_FILES: u64 = FILE_C | FILE_D | FILE_E | FILE_F;
pub const CENTRE: u64 = (FILE_D | FILE_E) & (RANK_4 | RANK_5);

/// Bit `i` of `b`.
pub open spec fn bit(b: u64, i: u64) -> bool {
    (b >> i) & 1u64 == 1u64
}

/// Square `s` is set in bitboard `b`.
pub open spec fn has_sq(b: u64, s: int) -> bool {
    0 <= s < 64 && bit(b, s as u64)
}

pub open spec fn file_of(s: int) -> int {
    s % 8
}

pub open spec fn rank_of(s: int) -> int {
    s / 8
}

pub open spec fn on_board(f: int, r: int) -> bool {
    0 <= f < 8 && 0 <= r < 8
}

pub open spec fn is_square(s: int) -> bool {
    0 <= s < 64
}

/// `t` lies `df` files and `dr` ranks away from `s`.
pub open spec fn offset(s: int, t: int, df: int, dr: int) -> bool {
    is_square(s) && is_square(t) && file_of(t) - file_of(s) == df && rank_of(t) - rank_of(s)
        == dr
}

pub open spec fn abs(x: int) -> int {
    if x < 0 {
        -x
    } else {
        x
    }
}

/// The bitboard that holds square `s` alone.
pub open spec fn single(s: int) -> u64 {
    1u64 << (s as u64)
}

/// The mask that keeps the squares from which a move of `df` files stays on the board.
pub open spec fn keep_mask(df: int) -> u64 {
    if df == 1 {
        !FILE_H
    } else if df == 2 {
        !(FILE_G | FILE_H)
    } else if df == -1 {
        !FILE_A
    } else {
        !(FILE_A | FILE_B)
    }
}

/// Every square of `b` moved `df` files and `dr` ranks, as a masked shift:
/// squares that would leave the board are dropped.
pub open spec fn moved(b: u64, df: int, dr: int) -> u64 {
    let k = df + 8 * dr;
    let m = if df == 0 {
        b
    } else {
        b & keep_mask(df)
    };
    if k >= 0 {
        m << (k as u64)
    } else {
        m >> ((-k) as u64)
    }
}

// ---------------------------------------------------------------- bit facts
proof fn lemma_bit_logic(x: u64, y: u64, i: u64)
    by (bit_vector)
    requires
        i < 64,
    ensures
        bit(x & y, i) == (bit(x, i) && bit(y, i)),
        bit(x | y, i) == (bit(x, i) || bit(y, i)),
        bit(!x, i) == !bit(x, i),
        bit(x ^ y, i) == (bit(x, i) != bit(y, i)),
        !bit(0u64, i),
{
}

proof fn lemma_bit_shl(x: u64, k: u64, i: u64)
    by (bit_vector)
    requires
        i < 64,
        k < 64,
    ensures
        bit(x << k, i) == (i >= k && bit(x, (i - k) as u64)),
{
}

proof fn lemma_bit_shr(x: u64, k: u64, i: u64)
    by (bit_vector)
    requires
        i < 64,
        k < 64,
    ensures
        bit(x >> k, i) == (i + k < 64 && bit(x, (i + k) as u64)),
{
}

proof fn lemma_bit_masks(i: u64)
    by (bit_vector)
    requires
        i < 64,
    ensures
        bit(FILE_A, i) == (i % 8 == 0),
        bit(FILE_B, i) == (i % 8 == 1),
        bit(FILE_C, i) == (i % 8 == 2),
        bit(FILE_D, i) == (i % 8 == 3),
        bit(FILE_E, i) == (i % 8 == 4),
        bit(FILE_F, i) == (i % 8 == 5),
        bit(FILE_G, i) == (i % 8 == 6),
        bit(FILE_H, i) == (i % 8 == 7),
        bit(RANK_1, i) == (i / 8 == 0),
        bit(RANK_2, i) == (i / 8 == 1),
        bit(RANK_3, i) == (i / 8 == 2),
        bit(RANK_4, i) == (i / 8 == 3),
        bit(RANK_5, i) == (i / 8 == 4),
        bit(RANK_6, i) == (i / 8 == 5),
        bit(RANK_7, i) == (i / 8 == 6),
        bit(RANK_8, i) == (i / 8 == 7),
{
}

proof fn lemma_bit_single(s: u64, i: u64)
    by (bit_vector)
    requires
        s < 64,
        i < 64,
    ensures
        bit(1u64 << s, i) == (s == i),
{
}

proof fn lemma_xor_zero(x: u64, y: u64)
    by (bit_vector)
    requires
        x ^ y == 0,
    ensures
        x == y,
{
}

pub broadcast proof fn lemma_has_and(x: u64, y: u64, s: int)
    ensures
        #[trigger] has_sq(x & y, s) == (has_sq(x, s) && has_sq(y, s)),
{
    if 0 <= s < 64 {
        lemma_bit_logic(x, y, s as u64);
    }
}

pub broadcast proof fn lemma_has_or(x: u64, y: u64, s: int)
    ensures
        #[trigger] has_sq(x | y, s) == (has_sq(x, s) || has_sq(y, s)),
{
    if 0 <= s < 64 {
        lemma_bit_logic(x, y, s as u64);
    }
}

pub broadcast proof fn lemma_has_not(x: u64, s: int)
    ensures
        #[trigger] has_sq(!x, s) == (is_square(s) && !has_sq(x, s)),
{
    if 0 <= s < 64 {
        lemma_bit_logic(x, x, s as u64);
    }
}

pub broadcast proof fn lemma_has_zero(s: int)
    ensures
        !#[trigger] has_sq(0u64, s),
{
    if 0 <= s < 64 {
        lemma_bit_logic(0, 0, s as u64);
    }
}

pub broadcast proof fn lemma_has_shl(x: u64, k: u64, s: int)
    requires
        k < 64,
    ensures
        #[trigger] has_sq(x << k, s) == (is_square(s) && s >= k && has_sq(x, s - k)),
{
    if 0 <= s < 64 {
        lemma_bit_shl(x, k, s as u64);
    }
}

pub broadcast proof fn lemma_has_shr(x: u64, k: u64, s: int)
    requires
        k < 64,
    ensures
        #[trigger] has_sq(x >> k, s) == (is_square(s) && has_sq(x, s + k)),
{
    if 0 <= s < 64 {
        lemma_bit_shr(x, k, s as u64);
    }
}

pub broadcast proof fn lemma_has_single(t: int, s: int)
    requires
        is_square(t),
    ensures
        #[trigger] has_sq(single(t), s) == (s == t),
{
    if 0 <= s < 64 {
        lemma_bit_single(t as u64, s as u64);
    }
}

/// The masks of the files and ranks, square by square.
pub broadcast proof fn lemma_has_lines(s: int)
    requires
        is_square(s),
    ensures
        #[trigger] has_sq(FILE_A, s) == (file_of(s) == 0),
        has_sq(FILE_B, s) == (file_of(s) == 1),
        has_sq(FILE_C, s) == (file_of(s) == 2),
        has_sq(FILE_D, s) == (file_of(s) == 3),
        has_sq(FILE_E, s) == (file_of(s) == 4),
        has_sq(FILE_F, s) == (file_of(s) == 5),
        has_sq(FILE_G, s) == (file_of(s) == 6),
        has_sq(FILE_H, s) == (file_of(s) == 7),
        has_sq(RANK_1, s) == (rank_of(s) == 0),
        has_sq(RANK_2, s) == (rank_of(s) == 1),
        has_sq(RANK_3, s) == (rank_of(s) == 2),
        has_sq(RANK_4, s) == (rank_of(s) == 3),
        has_sq(RANK_5, s) == (rank_of(s) == 4),
        has_sq(RANK_6, s) == (rank_of(s) == 5),
        has_sq(RANK_7, s) == (rank_of(s) == 6),
        has_sq(RANK_8, s) == (rank_of(s) == 7),
{
    lemma_bit_masks(s as u64);
}

pub broadcast group group_bitboard {
    lemma_has_and,
    lemma_has_or,
    lemma_has_not,
    lemma_has_zero,
    lemma_has_single,
    lemma_has_lines,
}

/// Two bitboards that agree on every square are equal.
pub proof fn lemma_bitboard_ext(x: u64, y: u64)
    requires
        forall|s: int| is_square(s) ==> #[trigger] has_sq(x, s) == has_sq(y, s),
    ensures
        x == y,
{
    let z = x ^ y;
    assert forall|j: u64| j < 64 implies (z >> j) & 1u64 == 0u64 by {
        lemma_bit_logic(x, y, j);
        assert(is_square(j as int));
        assert(has_sq(x, j as int) == has_sq(y, j as int));
        assert(((z >> j) & 1u64) == 1u64 || ((z >> j) & 1u64) == 0u64) by (bit_vector);
    }
    vstd::std_specs::bits::axiom_u64_trailing_zeros(z);
    lemma_xor_zero(x, y);
}

/// Square `t` is reached from a square of `b` by a move of `df` files and `dr` ranks.
pub open spec fn shifted(b: u64, df: int, dr: int, t: int) -> bool {
    is_square(t) && on_board(file_of(t) - df, rank_of(t) - dr) && has_sq(b, t - df - 8 * dr)
}

/// A square is `8 * rank + file`.
pub proof fn lemma_square_parts(s: int)
    requires
        is_square(s),
    ensures
        s == 8 * rank_of(s) + file_of(s),
        0 <= file_of(s) < 8,
        0 <= rank_of(s) < 8,
{
}

/// The square `df` files and `dr` ranks back from `t`.
pub proof fn lemma_offset_back(t: int, df: int, dr: int)
    requires
        is_square(t),
        on_board(file_of(t) - df, rank_of(t) - dr),
    ensures
        offset(t - df - 8 * dr, t, df, dr),
{
    lemma_square_parts(t);
    let s = t - df - 8 * dr;
    assert(s == 8 * (rank_of(t) - dr) + (file_of(t) - df));
}

/// Two squares differ by their file and rank differences.
pub proof fn lemma_offset_diff(s: int, t: int, df: int, dr: int)
    requires
        offset(s, t, df, dr),
    ensures
        s == t - df - 8 * dr,
        on_board(file_of(t) - df, rank_of(t) - dr),
{
    lemma_square_parts(s);
    lemma_square_parts(t);
}

/// `shifted` as the existence of a square of origin.
pub proof fn lemma_shifted_from(b: u64, df: int, dr: int, t: int)
    ensures
        shifted(b, df, dr, t) == exists|s: int| #[trigger] has_sq(b, s) && offset(s, t, df, dr),
{
    if shifted(b, df, dr, t) {
        lemma_offset_back(t, df, dr);
        assert(has_sq(b, t - df - 8 * dr) && offset(t - df - 8 * dr, t, df, dr));
    }
    if exists|s: int| #[trigger] has_sq(b, s) && offset(s, t, df, dr) {
        let s = choose|s: int| #[trigger] has_sq(b, s) && offset(s, t, df, dr);
        lemma_offset_diff(s, t, df, dr);
    }
}

/// What a masked shift holds, square by square.
pub proof fn lemma_moved(b: u64, df: int, dr: int, t: int)
    requires
        -2 <= df <= 2,
        -2 <= dr <= 2,
        df != 0 || dr != 0,
    ensures
        has_sq(moved(b, df, dr), t) == shifted(b, df, dr, t),
{
    broadcast use group_bitboard;

    let k = df + 8 * dr;
    let m = if df == 0 {
        b
    } else {
        b & keep_mask(df)
    };
    let s = t - k;
    if is_square(s) {
        lemma_has_lines(s);
        assert(s == 8 * rank_of(s) + file_of(s));
    }
    if is_square(t) {
        assert(t == 8 * rank_of(t) + file_of(t));
    }
    if k >= 0 {
        lemma_has_shl(m, k as u64, t);
    } else {
        lemma_has_shr(m, (-k) as u64, t);
    }
}

} // verus!
