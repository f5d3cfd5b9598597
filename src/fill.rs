//! Sliding reachability by occluded fill.
//!
//! From the source squares the fill floods outwards through empty squares in
//! one direction, six times, and one last step then adds the first square
//! that blocks each ray. The result is every square a slider reaches in one
//! ply, the stopping square included whoever stands on it.
use vstd::prelude::*;
use crate::bitboard::{
    abs, group_bitboard, has_sq, is_square, on_board, file_of, rank_of, shifted, single, offset,
    lemma_has_single, lemma_offset_back, lemma_offset_diff, lemma_square_parts,
};
use crate::moves::{
    north_one, south_one, east_one, west_one, north_east_one, north_west_one, south_east_one,
    south_west_one,
};

verus! {

broadcast use group_bitboard;

/// The eight directions of the sliding pieces.
#[derive(Clone, Copy, Debug, PartialEq, Eq)]
pub enum Direction {
    North,
    South,
    East,
    West,
    NorthEast,
    NorthWest,
    SouthEast,
    SouthWest,
}

impl Direction {
    /// Files moved by one step.
    pub open spec fn df(self) -> int {
        match self {
            Direction::East | Direction::NorthEast | Direction::SouthEast => 1,
            Direction::West | Direction::NorthWest | Direction::SouthWest => -1,
            _ => 0,
        }
    }

    /// Ranks moved by one step.
    pub open spec fn dr(self) -> int {
        match self {
            Direction::North | Direction::NorthEast | Direction::NorthWest => 1,
            Direction::South | Direction::SouthEast | Direction::SouthWest => -1,
            _ => 0,
        }
    }
}

/// `t` is reached from a square of `src` in at most `k` steps of `(df, dr)`,
/// every square passed over before `t` being in `empties`.
pub open spec fn ray_reach(src: u64, empties: u64, df: int, dr: int, t: int, k: nat) -> bool
    decreases k,
{
    if k == 0 {
        false
    } else {
        shifted(src, df, dr, t) || (is_square(t) && on_board(file_of(t) - df, rank_of(t) - dr)
            && has_sq(empties, t - df - 8 * dr) && ray_reach(
            src,
            empties,
            df,
            dr,
            t - df - 8 * dr,
            (k - 1) as nat,
        ))
    }
}

/// A slider of `src` moving along `(df, dr)` reaches `t`: the ray runs over
/// empty squares and ends on the first square that is not empty, or at the edge.
pub open spec fn slide_targets(src: u64, empties: u64, df: int, dr: int, t: int) -> bool {
    ray_reach(src, empties, df, dr, t, 7)
}

pub open spec fn rook_targets(src: u64, empties: u64, t: int) -> bool {
    slide_targets(src, empties, 0, 1, t) || slide_targets(src, empties, 0, -1, t)
        || slide_targets(src, empties, 1, 0, t) || slide_targets(src, empties, -1, 0, t)
}

pub open spec fn bishop_targets(src: u64, empties: u64, t: int) -> bool {
    slide_targets(src, empties, 1, 1, t) || slide_targets(src, empties, -1, 1, t)
        || slide_targets(src, empties, 1, -1, t) || slide_targets(src, empties, -1, -1, t)
}

proof fn lemma_ray_reach_grows(src: u64, empties: u64, df: int, dr: int, t: int, k: nat)
    requires
        ray_reach(src, empties, df, dr, t, k),
    ensures
        ray_reach(src, empties, df, dr, t, k + 1),
    decreases k,
{
    let p = t - df - 8 * dr;
    assert(ray_reach(src, empties, df, dr, t, k) == (shifted(src, df, dr, t) || (is_square(t)
        && on_board(file_of(t) - df, rank_of(t) - dr) && has_sq(empties, p) && ray_reach(
        src,
        empties,
        df,
        dr,
        p,
        (k - 1) as nat,
    ))));
    if !shifted(src, df, dr, t) {
        assert(k > 1);
        lemma_ray_reach_grows(src, empties, df, dr, p, (k - 1) as nat);
        assert(((k - 1) as nat + 1) as nat == k);
        assert(ray_reach(src, empties, df, dr, p, k));
    }
    assert(ray_reach(src, empties, df, dr, t, k + 1) == (shifted(src, df, dr, t) || (is_square(t)
        && on_board(file_of(t) - df, rank_of(t) - dr) && has_sq(empties, p) && ray_reach(
        src,
        empties,
        df,
        dr,
        p,
        k,
    ))));
}

/// One step of every square of `b` in direction `dir`.
fn step(b: u64, dir: Direction) -> (r: u64)
    ensures
        forall|t: int| #[trigger] has_sq(r, t) == shifted(b, dir.df(), dir.dr(), t),
{
    match dir {
        Direction::North => north_one(b),
        Direction::South => south_one(b),
        Direction::East => east_one(b),
        Direction::West => west_one(b),
        Direction::NorthEast => north_east_one(b),
        Direction::NorthWest => north_west_one(b),
        Direction::SouthEast => south_east_one(b),
        Direction::SouthWest => south_west_one(b),
    }
}

/// The squares that sliders on `sq` reach in direction `dir`.
pub fn ray_attacks(sq: u64, empties: u64, dir: Direction) -> (r: u64)
    ensures
        forall|t: int| #[trigger] has_sq(r, t) == slide_targets(sq, empties, dir.df(), dir.dr(), t),
{
    let ghost df = dir.df();
    let ghost dr = dir.dr();
    let mut flood = sq;
    let mut i: usize = 0;
    while i < 6
        invariant
            0 <= i <= 6,
            df == dir.df(),
            dr == dir.dr(),
            forall|p: int| #[trigger]
                has_sq(flood, p) == (has_sq(sq, p) || (has_sq(empties, p) && ray_reach(
                    sq,
                    empties,
                    df,
                    dr,
                    p,
                    i as nat,
                ))),
        decreases 6 - i,
    {
        let stepped = step(flood, dir);
        let next = flood | (stepped & empties);
        proof {
            assert forall|p: int| #[trigger]
                has_sq(next, p) == (has_sq(sq, p) || (has_sq(empties, p) && ray_reach(
                    sq,
                    empties,
                    df,
                    dr,
                    p,
                    (i + 1) as nat,
                ))) by {
                if ray_reach(sq, empties, df, dr, p, i as nat) {
                    lemma_ray_reach_grows(sq, empties, df, dr, p, i as nat);
                }
                assert(ray_reach(sq, empties, df, dr, p, (i + 1) as nat) == (shifted(sq, df, dr, p) || (is_square(p) && on_board(file_of(p) - df, rank_of(p) - dr) && has_sq(
                    empties,
                    p - df - 8 * dr,
                ) && ray_reach(sq, empties, df, dr, p - df - 8 * dr, i as nat))));
                assert(has_sq(flood, p - df - 8 * dr) == (has_sq(sq, p - df - 8 * dr) || (has_sq(
                    empties,
                    p - df - 8 * dr,
                ) && ray_reach(sq, empties, df, dr, p - df - 8 * dr, i as nat))));
                assert(has_sq(stepped, p) == shifted(flood, df, dr, p));
                assert(has_sq(next, p) == (has_sq(flood, p) || (has_sq(stepped, p) && has_sq(
                    empties,
                    p,
                ))));
                assert(shifted(flood, df, dr, p) == ray_reach(sq, empties, df, dr, p, (i + 1) as nat));
            }
        }
        flood = next;
        i = i + 1;
    }
    let r = step(flood, dir);
    proof {
        assert forall|t: int| #[trigger] has_sq(r, t) == slide_targets(sq, empties, df, dr, t) by {
            assert(has_sq(flood, t - df - 8 * dr) == (has_sq(sq, t - df - 8 * dr) || (has_sq(
                empties,
                t - df - 8 * dr,
            ) && ray_reach(sq, empties, df, dr, t - df - 8 * dr, 6))));
        }
    }
    r
}

/// The squares that sliders on `sq` reach towards rank 8, the first blocker included.
pub fn rook_north_attacks(sq: u64, empties: u64) -> (r: u64)
    ensures
        forall|t: int| #[trigger] has_sq(r, t) == slide_targets(sq, empties, 0, 1, t),
{
    ray_attacks(sq, empties, Direction::North)
}

/// The squares that sliders on `sq` reach towards rank 1, the first blocker included.
pub fn rook_south_attacks(sq: u64, empties: u64) -> (r: u64)
    ensures
        forall|t: int| #[trigger] has_sq(r, t) == slide_targets(sq, empties, 0, -1, t),
{
    ray_attacks(sq, empties, Direction::South)
}

/// The squares that sliders on `sq` reach towards file h, the first blocker included.
pub fn rook_east_attacks(sq: u64, empties: u64) -> (r: u64)
    ensures
        forall|t: int| #[trigger] has_sq(r, t) == slide_targets(sq, empties, 1, 0, t),
{
    ray_attacks(sq, empties, Direction::East)
}

/// The squares that sliders on `sq` reach towards file a, the first blocker included.
pub fn rook_west_attacks(sq: u64, empties: u64) -> (r: u64)
    ensures
        forall|t: int| #[trigger] has_sq(r, t) == slide_targets(sq, empties, -1, 0, t),
{
    ray_attacks(sq, empties, Direction::West)
}

/// The squares that sliders on `sq` reach towards h8, the first blocker included.
pub fn bish_north_east_attacks(sq: u64, empties: u64) -> (r: u64)
    ensures
        forall|t: int| #[trigger] has_sq(r, t) == slide_targets(sq, empties, 1, 1, t),
{
    ray_attacks(sq, empties, Direction::NorthEast)
}

/// The squares that sliders on `sq` reach towards a8, the first blocker included.
pub fn bish_north_west_attacks(sq: u64, empties: u64) -> (r: u64)
    ensures
        forall|t: int| #[trigger] has_sq(r, t) == slide_targets(sq, empties, -1, 1, t),
{
    ray_attacks(sq, empties, Direction::NorthWest)
}

/// The squares that sliders on `sq` reach towards h1, the first blocker included.
pub fn bish_south_east_attacks(sq: u64, empties: u64) -> (r: u64)
    ensures
        forall|t: int| #[trigger] has_sq(r, t) == slide_targets(sq, empties, 1, -1, t),
{
    ray_attacks(sq, empties, Direction::SouthEast)
}

/// The squares that sliders on `sq` reach towards a1, the first blocker included.
pub fn bish_south_west_attacks(sq: u64, empties: u64) -> (r: u64)
    ensures
        forall|t: int| #[trigger] has_sq(r, t) == slide_targets(sq, empties, -1, -1, t),
{
    ray_attacks(sq, empties, Direction::SouthWest)
}

/// The squares that rooks on `sq` reach along ranks and files, blockers included.
pub fn rook_moves_bb(sq: u64, empties: u64) -> (r: u64)
    ensures
        forall|t: int| #[trigger] has_sq(r, t) == rook_targets(sq, empties, t),
{
    rook_north_attacks(sq, empties) | rook_south_attacks(sq, empties) | rook_east_attacks(
        sq,
        empties,
    ) | rook_west_attacks(sq, empties)
}

/// The squares that bishops on `sq` reach along diagonals, blockers included.
pub fn bish_moves_bb(sq: u64, empties: u64) -> (r: u64)
    ensures
        forall|t: int| #[trigger] has_sq(r, t) == bishop_targets(sq, empties, t),
{
    bish_north_west_attacks(sq, empties) | bish_north_east_attacks(sq, empties)
        | bish_south_west_attacks(sq, empties) | bish_south_east_attacks(sq, empties)
}

/// On a board with every square empty, a ray reaches the squares `j` steps
/// away, for `j` from 1 to `k`.
proof fn lemma_ray_open(s: int, df: int, dr: int, t: int, k: nat)
    requires
        is_square(s),
        -1 <= df <= 1,
        -1 <= dr <= 1,
        df != 0 || dr != 0,
    ensures
        ray_reach(single(s), !0u64, df, dr, t, k) == exists|j: int|
            1 <= j <= k && #[trigger] offset(s, t, j * df, j * dr),
    decreases k,
{
    let e = !0u64;
    if k > 0 {
        let b = t - df - 8 * dr;
        lemma_ray_open(s, df, dr, b, (k - 1) as nat);
        lemma_has_single(s, b);
        if is_square(b) {
            lemma_square_parts(b);
        }
        if is_square(t) {
            lemma_square_parts(t);
        }
        if ray_reach(single(s), e, df, dr, t, k) {
            if shifted(single(s), df, dr, t) {
                lemma_offset_back(t, df, dr);
                assert(offset(s, t, 1 * df, 1 * dr));
            } else {
                let j = choose|j: int| 1 <= j <= k - 1 && #[trigger] offset(s, b, j * df, j * dr);
                lemma_offset_back(t, df, dr);
                assert((j + 1) * df == j * df + df) by (nonlinear_arith);
                assert((j + 1) * dr == j * dr + dr) by (nonlinear_arith);
                assert(offset(s, t, (j + 1) * df, (j + 1) * dr));
            }
        }
        if exists|j: int| 1 <= j <= k && #[trigger] offset(s, t, j * df, j * dr) {
            let j = choose|j: int| 1 <= j <= k && #[trigger] offset(s, t, j * df, j * dr);
            lemma_square_parts(s);
            if j == 1 {
                assert(1 * df == df && 1 * dr == dr);
                lemma_offset_diff(s, t, df, dr);
            } else {
                assert((j - 1) * df == j * df - df) by (nonlinear_arith);
                assert((j - 1) * dr == j * dr - dr) by (nonlinear_arith);
                assert(-j <= j * df <= j) by (nonlinear_arith)
                    requires
                        -1 <= df <= 1,
                        j >= 1,
                ;
                assert(-j <= j * dr <= j) by (nonlinear_arith)
                    requires
                        -1 <= dr <= 1,
                        j >= 1,
                ;
                assert(df == 0 ==> j * df == 0) by (nonlinear_arith);
                assert(dr == 0 ==> j * dr == 0) by (nonlinear_arith);
                assert(df == 1 ==> j * df == j) by (nonlinear_arith);
                assert(df == -1 ==> j * df == -j) by (nonlinear_arith);
                assert(dr == 1 ==> j * dr == j) by (nonlinear_arith);
                assert(dr == -1 ==> j * dr == -j) by (nonlinear_arith);
                assert(on_board(file_of(t) - df, rank_of(t) - dr));
                lemma_offset_back(t, df, dr);
                assert(offset(s, b, (j - 1) * df, (j - 1) * dr));
            }
        }
    }
}

/// The squares `j` steps from `s` along a unit direction, for some `j` from 1 to 7.
proof fn lemma_ray_open_line(s: int, df: int, dr: int, t: int)
    requires
        is_square(s),
        -1 <= df <= 1,
        -1 <= dr <= 1,
        df != 0 || dr != 0,
    ensures
        slide_targets(single(s), !0u64, df, dr, t) == (is_square(t) && t != s && {
            let jf = file_of(t) - file_of(s);
            let jr = rank_of(t) - rank_of(s);
            (if df == 0 { jf == 0 } else { jf * df > 0 }) && (if dr == 0 { jr == 0 } else { jr
                * dr > 0 }) && (df == 0 || dr == 0 || abs(jf) == abs(jr))
        }),
{
    lemma_ray_open(s, df, dr, t, 7);
    lemma_square_parts(s);
    if is_square(t) {
        lemma_square_parts(t);
        let jf = file_of(t) - file_of(s);
        let jr = rank_of(t) - rank_of(s);
        if exists|j: int| 1 <= j <= 7 && #[trigger] offset(s, t, j * df, j * dr) {
            let j = choose|j: int| 1 <= j <= 7 && #[trigger] offset(s, t, j * df, j * dr);
            assert(df == 0 ==> j * df == 0) by (nonlinear_arith);
            assert(dr == 0 ==> j * dr == 0) by (nonlinear_arith);
            assert(df == 1 ==> j * df == j) by (nonlinear_arith);
            assert(df == -1 ==> j * df == -j) by (nonlinear_arith);
            assert(dr == 1 ==> j * dr == j) by (nonlinear_arith);
            assert(dr == -1 ==> j * dr == -j) by (nonlinear_arith);
            assert(df == 1 ==> jf * df == jf) by (nonlinear_arith);
            assert(df == -1 ==> jf * df == -jf) by (nonlinear_arith);
            assert(dr == 1 ==> jr * dr == jr) by (nonlinear_arith);
            assert(dr == -1 ==> jr * dr == -jr) by (nonlinear_arith);
        }
        let want = t != s && (if df == 0 { jf == 0 } else { jf * df > 0 }) && (if dr == 0 {
            jr == 0
        } else {
            jr * dr > 0
        }) && (df == 0 || dr == 0 || abs(jf) == abs(jr));
        if want {
            assert(df == 1 ==> jf * df == jf) by (nonlinear_arith);
            assert(df == -1 ==> jf * df == -jf) by (nonlinear_arith);
            assert(dr == 1 ==> jr * dr == jr) by (nonlinear_arith);
            assert(dr == -1 ==> jr * dr == -jr) by (nonlinear_arith);
            let j = if df != 0 { abs(jf) } else { abs(jr) };
            assert(df == 0 ==> j * df == 0) by (nonlinear_arith);
            assert(dr == 0 ==> j * dr == 0) by (nonlinear_arith);
            assert(df == 1 ==> j * df == j) by (nonlinear_arith);
            assert(df == -1 ==> j * df == -j) by (nonlinear_arith);
            assert(dr == 1 ==> j * dr == j) by (nonlinear_arith);
            assert(dr == -1 ==> j * dr == -j) by (nonlinear_arith);
            assert(offset(s, t, j * df, j * dr));
        }
    }
}

/// On an empty board a rook reaches exactly the other squares of its file
/// and of its rank, and a bishop exactly the other squares of its two diagonals.
pub proof fn lemma_open_board_lines(s: int)
    requires
        is_square(s),
    ensures
        forall|t: int| #[trigger]
            rook_targets(single(s), !0u64, t) == (is_square(t) && t != s && (file_of(t) == file_of(s)
                || rank_of(t) == rank_of(s))),
        forall|t: int| #[trigger]
            bishop_targets(single(s), !0u64, t) == (is_square(t) && t != s && abs(file_of(t)
                - file_of(s)) == abs(rank_of(t) - rank_of(s))),
{
    assert forall|t: int| #[trigger]
        rook_targets(single(s), !0u64, t) == (is_square(t) && t != s && (file_of(t) == file_of(s)
            || rank_of(t) == rank_of(s))) by {
        lemma_ray_open_line(s, 0, 1, t);
        lemma_ray_open_line(s, 0, -1, t);
        lemma_ray_open_line(s, 1, 0, t);
        lemma_ray_open_line(s, -1, 0, t);
        lemma_square_parts(s);
        if is_square(t) {
            lemma_square_parts(t);
        }
    }
    assert forall|t: int| #[trigger]
        bishop_targets(single(s), !0u64, t) == (is_square(t) && t != s && abs(file_of(t) - file_of(
            s,
        )) == abs(rank_of(t) - rank_of(s))) by {
        lemma_ray_open_line(s, 1, 1, t);
        lemma_ray_open_line(s, -1, 1, t);
        lemma_ray_open_line(s, 1, -1, t);
        lemma_ray_open_line(s, -1, -1, t);
        lemma_square_parts(s);
        if is_square(t) {
            lemma_square_parts(t);
        }
    }
}

} // verus!
