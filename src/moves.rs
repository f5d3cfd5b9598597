//! One-step shifts and the leaper patterns (pawn, knight, king).
//!
//! Every shift masks off the departing edge file first, so no square ever
//! wraps from file h to file a of a neighbouring rank or back.
use vstd::prelude::*;
use crate::bitboard::{
    abs, file_of, group_bitboard, has_sq, is_square, lemma_moved,
    lemma_shifted_from, lemma_square_parts, lemma_has_lines, lemma_has_single, lemma_offset_back,
    on_board, single, rank_of, shifted, offset, FILE_A, FILE_B, FILE_G,
    FILE_H, RANK_2, RANK_7,
};

verus! {

broadcast use group_bitboard;

/// The rank direction in which the pawns of a colour advance.
pub open spec fn forward(white: bool) -> int {
    if white {
        1
    } else {
        -1
    }
}

/// The rank index from which the pawns of a colour may advance two squares.
pub open spec fn start_rank(white: bool) -> int {
    if white {
        1
    } else {
        6
    }
}

/// A knight on `s` attacks `t`.
pub open spec fn knight_step(s: int, t: int) -> bool {
    is_square(s) && is_square(t) && {
        let df = abs(file_of(t) - file_of(s));
        let dr = abs(rank_of(t) - rank_of(s));
        (df == 1 && dr == 2) || (df == 2 && dr == 1)
    }
}

/// A king on `s` attacks `t`.
pub open spec fn king_step(s: int, t: int) -> bool {
    is_square(s) && is_square(t) && {
        let df = abs(file_of(t) - file_of(s));
        let dr = abs(rank_of(t) - rank_of(s));
        df <= 1 && dr <= 1 && (df != 0 || dr != 0)
    }
}

/// A pawn of the given colour on `s` attacks `t`: one file aside, one rank forward.
pub open spec fn pawn_capture_step(white: bool, s: int, t: int) -> bool {
    is_square(s) && is_square(t) && abs(file_of(t) - file_of(s)) == 1 && rank_of(t) - rank_of(s)
        == forward(white)
}

/// Some knight of `src` attacks `t`.
pub open spec fn knight_targets(src: u64, t: int) -> bool {
    exists|s: int| #[trigger] has_sq(src, s) && knight_step(s, t)
}

/// Some king of `src` attacks `t`.
pub open spec fn king_targets(src: u64, t: int) -> bool {
    exists|s: int| #[trigger] has_sq(src, s) && king_step(s, t)
}

/// Some pawn of `src` of the given colour attacks `t`.
pub open spec fn pawn_capture_targets(src: u64, white: bool, t: int) -> bool {
    exists|s: int| #[trigger] has_sq(src, s) && pawn_capture_step(white, s, t)
}

/// A pawn of `src` reaches the empty square `t` by one step forward.
pub open spec fn single_push_target(src: u64, empties: u64, white: bool, t: int) -> bool {
    has_sq(empties, t) && shifted(src, 0, forward(white), t)
}

/// A pawn of `src` on its starting rank reaches `t` by two steps forward
/// over an empty square onto an empty square.
pub open spec fn double_push_target(src: u64, empties: u64, white: bool, t: int) -> bool {
    let f = forward(white);
    is_square(t) && rank_of(t) == start_rank(white) + 2 * f && has_sq(empties, t) && has_sq(
        empties,
        t - 8 * f,
    ) && has_sq(src, t - 16 * f)
}

/// Every square one rank up.
pub fn north_one(sq: u64) -> (r: u64)
    ensures
        forall|t: int| #[trigger] has_sq(r, t) == shifted(sq, 0, 1, t),
{
    proof {
        assert forall|t: int| #[trigger] has_sq(sq << 8, t) == shifted(sq, 0, 1, t) by {
            lemma_moved(sq, 0, 1, t);
        }
    }
    sq << 8
}

/// Every square one rank down.
pub fn south_one(sq: u64) -> (r: u64)
    ensures
        forall|t: int| #[trigger] has_sq(r, t) == shifted(sq, 0, -1, t),
{
    proof {
        assert forall|t: int| #[trigger] has_sq(sq >> 8, t) == shifted(sq, 0, -1, t) by {
            lemma_moved(sq, 0, -1, t);
        }
    }
    sq >> 8
}

/// Every square one file towards file a; file a itself drops off.
pub fn west_one(sq: u64) -> (r: u64)
    ensures
        forall|t: int| #[trigger] has_sq(r, t) == shifted(sq, -1, 0, t),
{
    let r = (sq & !FILE_A) >> 1;
    proof {
        assert forall|t: int| #[trigger] has_sq(r, t) == shifted(sq, -1, 0, t) by {
            lemma_moved(sq, -1, 0, t);
        }
    }
    r
}

/// Every square one file towards file h; file h itself drops off.
pub fn east_one(sq: u64) -> (r: u64)
    ensures
        forall|t: int| #[trigger] has_sq(r, t) == shifted(sq, 1, 0, t),
{
    let r = (sq & !FILE_H) << 1;
    proof {
        assert forall|t: int| #[trigger] has_sq(r, t) == shifted(sq, 1, 0, t) by {
            lemma_moved(sq, 1, 0, t);
        }
    }
    r
}

/// Every square one rank up and one file towards file a.
pub fn north_west_one(sq: u64) -> (r: u64)
    ensures
        forall|t: int| #[trigger] has_sq(r, t) == shifted(sq, -1, 1, t),
{
    let r = (sq & !FILE_A) << 7;
    proof {
        assert forall|t: int| #[trigger] has_sq(r, t) == shifted(sq, -1, 1, t) by {
            lemma_moved(sq, -1, 1, t);
        }
    }
    r
}

/// Every square one rank up and one file towards file h.
pub fn north_east_one(sq: u64) -> (r: u64)
    ensures
        forall|t: int| #[trigger] has_sq(r, t) == shifted(sq, 1, 1, t),
{
    let r = (sq & !FILE_H) << 9;
    proof {
        assert forall|t: int| #[trigger] has_sq(r, t) == shifted(sq, 1, 1, t) by {
            lemma_moved(sq, 1, 1, t);
        }
    }
    r
}

/// Every square one rank down and one file towards file a.
pub fn south_west_one(sq: u64) -> (r: u64)
    ensures
        forall|t: int| #[trigger] has_sq(r, t) == shifted(sq, -1, -1, t),
{
    let r = (sq & !FILE_A) >> 9;
    proof {
        assert forall|t: int| #[trigger] has_sq(r, t) == shifted(sq, -1, -1, t) by {
            lemma_moved(sq, -1, -1, t);
        }
    }
    r
}

/// Every square one rank down and one file towards file h.
pub fn south_east_one(sq: u64) -> (r: u64)
    ensures
        forall|t: int| #[trigger] has_sq(r, t) == shifted(sq, 1, -1, t),
{
    let r = (sq & !FILE_H) >> 7;
    proof {
        assert forall|t: int| #[trigger] has_sq(r, t) == shifted(sq, 1, -1, t) by {
            lemma_moved(sq, 1, -1, t);
        }
    }
    r
}

/// The squares that white pawns on `sq` attack.
pub fn white_pawn_attacks_bb(sq: u64) -> (r: u64)
    ensures
        forall|t: int| #[trigger] has_sq(r, t) == pawn_capture_targets(sq, true, t),
{
    let r = (sq & !FILE_H) << 9 | (sq & !FILE_A) << 7;
    proof {
        assert forall|t: int| #[trigger] has_sq(r, t) == pawn_capture_targets(sq, true, t) by {
            lemma_moved(sq, 1, 1, t);
            lemma_moved(sq, -1, 1, t);
            lemma_shifted_from(sq, 1, 1, t);
            lemma_shifted_from(sq, -1, 1, t);
            if pawn_capture_targets(sq, true, t) {
                let s = choose|s: int| #[trigger] has_sq(sq, s) && pawn_capture_step(true, s, t);
                assert(offset(s, t, 1, 1) || offset(s, t, -1, 1));
            }
        }
    }
    r
}

/// The squares that black pawns on `sq` attack.
pub fn black_pawn_attacks_bb(sq: u64) -> (r: u64)
    ensures
        forall|t: int| #[trigger] has_sq(r, t) == pawn_capture_targets(sq, false, t),
{
    let r = (sq & !FILE_H) >> 7 | (sq & !FILE_A) >> 9;
    proof {
        assert forall|t: int| #[trigger] has_sq(r, t) == pawn_capture_targets(sq, false, t) by {
            lemma_moved(sq, 1, -1, t);
            lemma_moved(sq, -1, -1, t);
            lemma_shifted_from(sq, 1, -1, t);
            lemma_shifted_from(sq, -1, -1, t);
            if pawn_capture_targets(sq, false, t) {
                let s = choose|s: int| #[trigger] has_sq(sq, s) && pawn_capture_step(false, s, t);
                assert(offset(s, t, 1, -1) || offset(s, t, -1, -1));
            }
        }
    }
    r
}

/// The squares that pawns of the given colour on `sq` attack: diagonally forward only.
pub fn pawn_attacks_bb(sq: u64, is_white: bool) -> (r: u64)
    ensures
        forall|t: int| #[trigger] has_sq(r, t) == pawn_capture_targets(sq, is_white, t),
{
    if is_white {
        white_pawn_attacks_bb(sq)
    } else {
        black_pawn_attacks_bb(sq)
    }
}

/// The empty squares one step in front of the pawns on `sq`.
pub fn pawn_single_pushes_bb(sq: u64, empties: u64, is_white: bool) -> (r: u64)
    ensures
        forall|t: int| #[trigger] has_sq(r, t) == single_push_target(sq, empties, is_white, t),
{
    if is_white {
        north_one(sq) & empties
    } else {
        south_one(sq) & empties
    }
}

/// The squares two steps in front of the pawns on `sq` that stand on their
/// starting rank, where both squares ahead are empty.
pub fn pawn_double_pushes_bb(sq: u64, empties: u64, is_white: bool) -> (r: u64)
    ensures
        forall|t: int| #[trigger] has_sq(r, t) == double_push_target(sq, empties, is_white, t),
{
    let start = if is_white {
        sq & RANK_2
    } else {
        sq & RANK_7
    };
    let once = pawn_single_pushes_bb(start, empties, is_white);
    let r = pawn_single_pushes_bb(once, empties, is_white);
    proof {
        assert forall|t: int| #[trigger] has_sq(r, t) == double_push_target(
            sq,
            empties,
            is_white,
            t,
        ) by {
            let f = forward(is_white);
            assert(has_sq(r, t) == single_push_target(once, empties, is_white, t));
            assert(has_sq(once, t - 8 * f) == single_push_target(
                start,
                empties,
                is_white,
                t - 8 * f,
            ));
            if is_square(t) {
                lemma_square_parts(t);
            }
            if is_square(t - 16 * f) {
                lemma_has_lines(t - 16 * f);
                lemma_square_parts(t - 16 * f);
            }
            if is_square(t - 8 * f) {
                lemma_square_parts(t - 8 * f);
            }
        }
    }
    r
}

/// The squares that knights on `sq` attack.
pub fn knight_moves_bb(sq: u64) -> (r: u64)
    ensures
        forall|t: int| #[trigger] has_sq(r, t) == knight_targets(sq, t),
{
    let r = (sq & !FILE_A) >> 17 | (sq & !FILE_H) >> 15 | (sq & !(FILE_A | FILE_B)) >> 10 | (sq
        & !(FILE_G | FILE_H)) >> 6 | (sq & !(FILE_A | FILE_B)) << 6 | (sq & !(FILE_G | FILE_H))
        << 10 | (sq & !FILE_A) << 15 | (sq & !FILE_H) << 17;
    proof {
        assert forall|t: int| #[trigger] has_sq(r, t) == knight_targets(sq, t) by {
            lemma_moved(sq, -1, -2, t);
            lemma_moved(sq, 1, -2, t);
            lemma_moved(sq, -2, -1, t);
            lemma_moved(sq, 2, -1, t);
            lemma_moved(sq, -2, 1, t);
            lemma_moved(sq, 2, 1, t);
            lemma_moved(sq, -1, 2, t);
            lemma_moved(sq, 1, 2, t);
            lemma_shifted_from(sq, -1, -2, t);
            lemma_shifted_from(sq, 1, -2, t);
            lemma_shifted_from(sq, -2, -1, t);
            lemma_shifted_from(sq, 2, -1, t);
            lemma_shifted_from(sq, -2, 1, t);
            lemma_shifted_from(sq, 2, 1, t);
            lemma_shifted_from(sq, -1, 2, t);
            lemma_shifted_from(sq, 1, 2, t);
            if knight_targets(sq, t) {
                let s = choose|s: int| #[trigger] has_sq(sq, s) && knight_step(s, t);
                assert(offset(s, t, -1, -2) || offset(s, t, 1, -2) || offset(s, t, -2, -1)
                    || offset(s, t, 2, -1) || offset(s, t, -2, 1) || offset(s, t, 2, 1) || offset(
                    s,
                    t,
                    -1,
                    2,
                ) || offset(s, t, 1, 2));
            }
        }
    }
    r
}

/// The squares that kings on `sq` attack.
pub fn king_moves_bb(sq: u64) -> (r: u64)
    ensures
        forall|t: int| #[trigger] has_sq(r, t) == king_targets(sq, t),
{
    let r = sq << 8 | sq >> 8 | (sq & !FILE_A) >> 1 | (sq & !FILE_H) << 1 | (sq & !FILE_A) << 7
        | (sq & !FILE_H) << 9 | (sq & !FILE_A) >> 9 | (sq & !FILE_H) >> 7;
    proof {
        assert forall|t: int| #[trigger] has_sq(r, t) == king_targets(sq, t) by {
            lemma_moved(sq, 0, 1, t);
            lemma_moved(sq, 0, -1, t);
            lemma_moved(sq, -1, 0, t);
            lemma_moved(sq, 1, 0, t);
            lemma_moved(sq, -1, 1, t);
            lemma_moved(sq, 1, 1, t);
            lemma_moved(sq, -1, -1, t);
            lemma_moved(sq, 1, -1, t);
            lemma_shifted_from(sq, 0, 1, t);
            lemma_shifted_from(sq, 0, -1, t);
            lemma_shifted_from(sq, -1, 0, t);
            lemma_shifted_from(sq, 1, 0, t);
            lemma_shifted_from(sq, -1, 1, t);
            lemma_shifted_from(sq, 1, 1, t);
            lemma_shifted_from(sq, -1, -1, t);
            lemma_shifted_from(sq, 1, -1, t);
            if king_targets(sq, t) {
                let s = choose|s: int| #[trigger] has_sq(sq, s) && king_step(s, t);
                assert(offset(s, t, 0, 1) || offset(s, t, 0, -1) || offset(s, t, -1, 0) || offset(
                    s,
                    t,
                    1,
                    0,
                ) || offset(s, t, -1, 1) || offset(s, t, 1, 1) || offset(s, t, -1, -1) || offset(
                    s,
                    t,
                    1,
                    -1,
                ));
            }
        }
    }
    r
}

/// A pawn has no double push when it is not on the starting rank of its
/// colour, nor when the square in front of it is occupied.
pub proof fn lemma_double_push_blocked(s: int, empties: u64, white: bool)
    requires
        is_square(s),
        rank_of(s) != start_rank(white) || !has_sq(empties, s + 8 * forward(white)),
    ensures
        forall|t: int| !#[trigger] double_push_target(single(s), empties, white, t),
{
    assert forall|t: int| !#[trigger] double_push_target(single(s), empties, white, t) by {
        let f = forward(white);
        lemma_has_single(s, t - 16 * f);
        if double_push_target(single(s), empties, white, t) {
            lemma_square_parts(t);
            lemma_square_parts(s);
            assert(s == t - 16 * f);
        }
    }
}

/// The squares a knight on `s` attacks.
pub open spec fn knight_attack_set(s: int) -> Set<int> {
    Set::new(|t: int| knight_targets(single(s), t))
}

/// Square `s` moved by `(df, dr)`, added to `a` when the move stays on the board.
pub open spec fn add_if_on_board(a: Set<int>, s: int, df: int, dr: int) -> Set<int> {
    if on_board(file_of(s) + df, rank_of(s) + dr) {
        a.insert(s + df + 8 * dr)
    } else {
        a
    }
}

pub open spec fn count_if_on_board(s: int, df: int, dr: int) -> int {
    if on_board(file_of(s) + df, rank_of(s) + dr) {
        1
    } else {
        0
    }
}

/// A knight attacks between two and eight squares: two from a corner
/// (a1, h1, a8, h8) and eight from the centre (d4, e4, d5, e5).
pub proof fn lemma_knight_attack_count(s: int)
    requires
        is_square(s),
    ensures
        knight_attack_set(s).finite(),
        2 <= knight_attack_set(s).len() <= 8,
        (s == 0 || s == 7 || s == 56 || s == 63) ==> knight_attack_set(s).len() == 2,
        (s == 27 || s == 28 || s == 35 || s == 36) ==> knight_attack_set(s).len() == 8,
{
    lemma_square_parts(s);
    let a0 = Set::<int>::empty();
    let a1 = add_if_on_board(a0, s, 1, 2);
    let a2 = add_if_on_board(a1, s, -1, 2);
    let a3 = add_if_on_board(a2, s, 2, 1);
    let a4 = add_if_on_board(a3, s, -2, 1);
    let a5 = add_if_on_board(a4, s, 2, -1);
    let a6 = add_if_on_board(a5, s, -2, -1);
    let a7 = add_if_on_board(a6, s, 1, -2);
    let a8 = add_if_on_board(a7, s, -1, -2);
    assert(a1.len() == count_if_on_board(s, 1, 2));
    assert(a2.len() == a1.len() + count_if_on_board(s, -1, 2));
    assert(a3.len() == a2.len() + count_if_on_board(s, 2, 1));
    assert(a4.len() == a3.len() + count_if_on_board(s, -2, 1));
    assert(a5.len() == a4.len() + count_if_on_board(s, 2, -1));
    assert(a6.len() == a5.len() + count_if_on_board(s, -2, -1));
    assert(a7.len() == a6.len() + count_if_on_board(s, 1, -2));
    assert(a8.len() == a7.len() + count_if_on_board(s, -1, -2));
    assert forall|t: int| #[trigger] knight_attack_set(s).contains(t) == a8.contains(t) by {
        if knight_targets(single(s), t) {
            let w = choose|w: int| #[trigger] has_sq(single(s), w) && knight_step(w, t);
            lemma_has_single(s, w);
            lemma_square_parts(t);
        }
        if a8.contains(t) {
            lemma_has_single(s, s);
            let df = file_of(t) - file_of(s);
            let dr = rank_of(t) - rank_of(s);
            lemma_offset_back(t, df, dr);
            assert(knight_step(s, t));
        }
    }
    assert(knight_attack_set(s) =~= a8);
}

} // verus!
