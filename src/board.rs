//! The twelve piece bitboards of a position, and the questions asked of them:
//! occupancy, moves and attacks per piece kind and colour, check, the piece on
//! a square, and the placement field of FEN.
use vstd::prelude::*;
use crate::bitboard::{
    group_bitboard, has_sq, is_square, single, lemma_bitboard_ext, lemma_has_single, lemma_has_zero,
};
use crate::moves::{
    king_moves_bb, king_targets, knight_moves_bb, knight_targets, pawn_attacks_bb,
    pawn_capture_targets, pawn_double_pushes_bb, pawn_single_pushes_bb, single_push_target,
    double_push_target,
};
use crate::fill::{
    bish_moves_bb, bishop_targets, ray_attacks, rook_moves_bb, rook_targets, slide_targets,
    Direction,
};
use crate::ply::{Colour, Piece};
use crate::square::Square;
use crate::text::push_char;

verus! {

broadcast use group_bitboard;

#[derive(Clone, Copy, Debug, PartialEq, Eq, Structural)]
pub struct Board {
    pub w_p_bb: u64,
    pub w_r_bb: u64,
    pub w_n_bb: u64,
    pub w_b_bb: u64,
    pub w_q_bb: u64,
    pub w_k_bb: u64,
    pub b_p_bb: u64,
    pub b_r_bb: u64,
    pub b_n_bb: u64,
    pub b_b_bb: u64,
    pub b_q_bb: u64,
    pub b_k_bb: u64,
}

/// How a square of a drawn board is marked.
#[derive(Clone, Copy, Debug, PartialEq, Eq, Structural)]
pub enum Mark {
    Plain,
    /// A piece that can be captured.
    Attacked,
    /// An empty square that can be moved to.
    Reachable,
}

/// One square of a drawn board.
#[derive(Clone, Copy, Debug)]
pub struct Cell {
    pub square: u8,
    pub piece: Option<(Piece, Colour)>,
    pub mark: Mark,
}

/// The square drawn at position `i` (row by row from the top, left to
/// right): from White's side rank 8 comes first and file a on the left, from
/// Black's side rank 1 comes first and file h on the left.
pub open spec fn drawn_square(white_pov: bool, i: int) -> int {
    if white_pov {
        (7 - i / 8) * 8 + i % 8
    } else {
        (i / 8) * 8 + (7 - i % 8)
    }
}

/// `o` lies within `m`.
pub open spec fn covers(m: u64, o: u64) -> bool {
    m & o == o
}

/// The FEN letter of a piece: upper case for white, lower case for black.
pub open spec fn piece_char(p: Piece, c: Colour) -> char {
    match (c, p) {
        (Colour::White, Piece::Pawn) => 'P',
        (Colour::White, Piece::Rook) => 'R',
        (Colour::White, Piece::Knight) => 'N',
        (Colour::White, Piece::Bishop) => 'B',
        (Colour::White, Piece::Queen) => 'Q',
        (Colour::White, Piece::King) => 'K',
        (Colour::Black, Piece::Pawn) => 'p',
        (Colour::Black, Piece::Rook) => 'r',
        (Colour::Black, Piece::Knight) => 'n',
        (Colour::Black, Piece::Bishop) => 'b',
        (Colour::Black, Piece::Queen) => 'q',
        (Colour::Black, Piece::King) => 'k',
    }
}

/// The digit of a count of empty squares, 1 to 8.
pub open spec fn digit_char(n: int) -> char {
    if n == 1 { '1' } else if n == 2 { '2' } else if n == 3 { '3' } else if n == 4 { '4' }
    else if n == 5 { '5' } else if n == 6 { '6' } else if n == 7 { '7' } else { '8' }
}

/// The digit for a run of empty squares, nothing for an empty run.
pub open spec fn run_text(run: int) -> Seq<char> {
    if run > 0 {
        seq![digit_char(run)]
    } else {
        Seq::empty()
    }
}

impl Board {
    /// The bitboard of one piece kind of one colour.
    pub open spec fn mask(self, piece: Piece, colour: Colour) -> u64 {
        match (colour, piece) {
            (Colour::White, Piece::Pawn) => self.w_p_bb,
            (Colour::White, Piece::Rook) => self.w_r_bb,
            (Colour::White, Piece::Knight) => self.w_n_bb,
            (Colour::White, Piece::Bishop) => self.w_b_bb,
            (Colour::White, Piece::Queen) => self.w_q_bb,
            (Colour::White, Piece::King) => self.w_k_bb,
            (Colour::Black, Piece::Pawn) => self.b_p_bb,
            (Colour::Black, Piece::Rook) => self.b_r_bb,
            (Colour::Black, Piece::Knight) => self.b_n_bb,
            (Colour::Black, Piece::Bishop) => self.b_b_bb,
            (Colour::Black, Piece::Queen) => self.b_q_bb,
            (Colour::Black, Piece::King) => self.b_k_bb,
        }
    }

    /// Every square that a piece of `colour` stands on.
    pub open spec fn colour_mask(self, colour: Colour) -> u64 {
        match colour {
            Colour::White => self.w_p_bb | self.w_r_bb | self.w_n_bb | self.w_b_bb | self.w_q_bb
                | self.w_k_bb,
            Colour::Black => self.b_p_bb | self.b_r_bb | self.b_n_bb | self.b_b_bb | self.b_q_bb
                | self.b_k_bb,
        }
    }

    /// A piece of `colour` stands on `t`.
    pub open spec fn occupied_by(self, colour: Colour, t: int) -> bool {
        has_sq(self.mask(Piece::Pawn, colour), t) || has_sq(self.mask(Piece::Knight, colour), t)
            || has_sq(self.mask(Piece::Bishop, colour), t) || has_sq(self.mask(Piece::Rook, colour), t)
            || has_sq(self.mask(Piece::Queen, colour), t) || has_sq(self.mask(Piece::King, colour), t)
    }

    /// No piece stands on the square `t`.
    pub open spec fn is_empty_sq(self, t: int) -> bool {
        is_square(t) && !self.occupied_by(Colour::White, t) && !self.occupied_by(Colour::Black, t)
    }

    /// The empty squares.
    pub open spec fn empty_bb(self) -> u64 {
        !(self.colour_mask(Colour::White) | self.colour_mask(Colour::Black))
    }

    /// Where pieces of kind `piece` and colour `colour` standing on `src`
    /// reach in one ply, whoever stands on the square reached (pawns: their captures).
    pub open spec fn reach(self, piece: Piece, colour: Colour, src: u64, t: int) -> bool {
        match piece {
            Piece::Pawn => pawn_capture_targets(src, colour == Colour::White, t),
            Piece::Knight => knight_targets(src, t),
            Piece::Bishop => bishop_targets(src, self.empty_bb(), t),
            Piece::Rook => rook_targets(src, self.empty_bb(), t),
            Piece::Queen => rook_targets(src, self.empty_bb(), t) || bishop_targets(
                src,
                self.empty_bb(),
                t,
            ),
            Piece::King => king_targets(src, t),
        }
    }

    /// Pieces of kind `piece` and colour `colour` on `src` can capture on `t`.
    pub open spec fn attacks_from(self, piece: Piece, colour: Colour, src: u64, t: int) -> bool {
        self.reach(piece, colour, src, t) && self.occupied_by(colour.other(), t)
    }

    /// Some piece of `colour` can capture on `t`.
    pub open spec fn attacked_by(self, colour: Colour, t: int) -> bool {
        self.attacks_from(Piece::Pawn, colour, self.mask(Piece::Pawn, colour), t)
            || self.attacks_from(Piece::Knight, colour, self.mask(Piece::Knight, colour), t)
            || self.attacks_from(Piece::King, colour, self.mask(Piece::King, colour), t)
            || self.attacks_from(Piece::Bishop, colour, self.mask(Piece::Bishop, colour), t)
            || self.attacks_from(Piece::Rook, colour, self.mask(Piece::Rook, colour), t)
            || self.attacks_from(Piece::Queen, colour, self.mask(Piece::Queen, colour), t)
    }

    /// The king of `colour` stands on a square that the other colour attacks.
    pub open spec fn in_check(self, colour: Colour) -> bool {
        exists|s: int| #[trigger] has_sq(self.mask(Piece::King, colour), s) && self.attacked_by(
            colour.other(),
            s,
        )
    }

    /// `colour` has exactly one king.
    pub open spec fn one_king(self, colour: Colour) -> bool {
        exists|s: int| is_square(s) && self.mask(Piece::King, colour) == single(s)
    }

    /// No square is claimed by two of the twelve bitboards.
    pub open spec fn wf(self) -> bool {
        forall|s: int, p1: Piece, c1: Colour, p2: Piece, c2: Colour|
            #![trigger has_sq(self.mask(p1, c1), s), has_sq(self.mask(p2, c2), s)]
            has_sq(self.mask(p1, c1), s) && has_sq(self.mask(p2, c2), s) ==> p1 == p2 && c1 == c2
    }

    /// The first of the twelve bitboards, in a fixed order, that covers `o`.
    pub open spec fn piece_covering(self, o: u64) -> Option<(Piece, Colour)> {
        if covers(self.w_p_bb, o) { Some((Piece::Pawn, Colour::White)) }
        else if covers(self.w_r_bb, o) { Some((Piece::Rook, Colour::White)) }
        else if covers(self.w_n_bb, o) { Some((Piece::Knight, Colour::White)) }
        else if covers(self.w_b_bb, o) { Some((Piece::Bishop, Colour::White)) }
        else if covers(self.w_q_bb, o) { Some((Piece::Queen, Colour::White)) }
        else if covers(self.w_k_bb, o) { Some((Piece::King, Colour::White)) }
        else if covers(self.b_p_bb, o) { Some((Piece::Pawn, Colour::Black)) }
        else if covers(self.b_r_bb, o) { Some((Piece::Rook, Colour::Black)) }
        else if covers(self.b_n_bb, o) { Some((Piece::Knight, Colour::Black)) }
        else if covers(self.b_b_bb, o) { Some((Piece::Bishop, Colour::Black)) }
        else if covers(self.b_q_bb, o) { Some((Piece::Queen, Colour::Black)) }
        else if covers(self.b_k_bb, o) { Some((Piece::King, Colour::Black)) }
        else { None }
    }

    /// The piece on square `s`, the twelve bitboards read in the same fixed order.
    pub open spec fn cell(self, s: int) -> Option<(Piece, Colour)> {
        if has_sq(self.w_p_bb, s) { Some((Piece::Pawn, Colour::White)) }
        else if has_sq(self.w_r_bb, s) { Some((Piece::Rook, Colour::White)) }
        else if has_sq(self.w_n_bb, s) { Some((Piece::Knight, Colour::White)) }
        else if has_sq(self.w_b_bb, s) { Some((Piece::Bishop, Colour::White)) }
        else if has_sq(self.w_q_bb, s) { Some((Piece::Queen, Colour::White)) }
        else if has_sq(self.w_k_bb, s) { Some((Piece::King, Colour::White)) }
        else if has_sq(self.b_p_bb, s) { Some((Piece::Pawn, Colour::Black)) }
        else if has_sq(self.b_r_bb, s) { Some((Piece::Rook, Colour::Black)) }
        else if has_sq(self.b_n_bb, s) { Some((Piece::Knight, Colour::Black)) }
        else if has_sq(self.b_b_bb, s) { Some((Piece::Bishop, Colour::Black)) }
        else if has_sq(self.b_q_bb, s) { Some((Piece::Queen, Colour::Black)) }
        else if has_sq(self.b_k_bb, s) { Some((Piece::King, Colour::Black)) }
        else { None }
    }

    /// The text of rank `r` from file `f` on, after a run of `run` empty squares.
    pub open spec fn rank_text(self, r: int, f: int, run: int) -> Seq<char>
        decreases 8 - f,
    {
        if f >= 8 {
            run_text(run)
        } else {
            match self.cell(r * 8 + f) {
                None => self.rank_text(r, f + 1, run + 1),
                Some((p, c)) => run_text(run) + seq![piece_char(p, c)] + self.rank_text(r, f + 1, 0),
            }
        }
    }

    /// The ranks from `r` down to the first, each run-length encoded, joined by `/`.
    pub open spec fn ranks_text(self, r: int) -> Seq<char>
        decreases r,
    {
        if r <= 0 {
            self.rank_text(0, 0, 0)
        } else {
            self.rank_text(r, 0, 0) + seq!['/'] + self.ranks_text(r - 1)
        }
    }

    /// The piece on `s` can capture on `t`.
    pub open spec fn capture_target(self, s: int, t: int) -> bool {
        match self.cell(s) {
            Some((p, c)) => self.attacks_from(p, c, single(s), t),
            None => false,
        }
    }

    /// The piece on `s` can move to the empty square `t` (a pawn: by its pushes).
    pub open spec fn quiet_target(self, s: int, t: int) -> bool {
        match self.cell(s) {
            Some((Piece::Pawn, c)) => single_push_target(
                single(s),
                self.empty_bb(),
                c == Colour::White,
                t,
            ) || double_push_target(single(s), self.empty_bb(), c == Colour::White, t),
            Some((p, c)) => self.reach(p, c, single(s), t) && self.is_empty_sq(t),
            None => false,
        }
    }

    /// Along `(df, dr)` from the king of `colour`, the piece on `s` is the
    /// first one met and the next one met beyond it is one of `sliders`.
    pub open spec fn pinned_along(self, s: int, colour: Colour, df: int, dr: int, sliders: u64) -> bool {
        let king = self.mask(Piece::King, colour);
        slide_targets(king, self.empty_bb(), df, dr, s) && exists|t: int|
            #[trigger] has_sq(sliders, t) && slide_targets(king, self.empty_bb() | single(s), df, dr, t)
    }

    /// The piece of `colour` on `s` stands between its king and an opposing
    /// rook, bishop or queen that would attack the king along that line were
    /// the piece gone.
    pub open spec fn pinned(self, s: int, colour: Colour) -> bool {
        let o = colour.other();
        let straight = self.mask(Piece::Rook, o) | self.mask(Piece::Queen, o);
        let diagonal = self.mask(Piece::Bishop, o) | self.mask(Piece::Queen, o);
        self.occupied_by(colour, s) && (self.pinned_along(s, colour, 0, 1, straight)
            || self.pinned_along(s, colour, 0, -1, straight) || self.pinned_along(s, colour, 1, 0, straight)
            || self.pinned_along(s, colour, -1, 0, straight) || self.pinned_along(s, colour, 1, 1, diagonal)
            || self.pinned_along(s, colour, -1, 1, diagonal) || self.pinned_along(s, colour, 1, -1, diagonal)
            || self.pinned_along(s, colour, -1, -1, diagonal))
    }

    /// The board without pieces.
    pub open spec fn empty_board() -> Board {
        Board {
            w_p_bb: 0,
            w_r_bb: 0,
            w_n_bb: 0,
            w_b_bb: 0,
            w_q_bb: 0,
            w_k_bb: 0,
            b_p_bb: 0,
            b_r_bb: 0,
            b_n_bb: 0,
            b_b_bb: 0,
            b_q_bb: 0,
            b_k_bb: 0,
        }
    }

    /// This board with the squares of `bits` added to the bitboard of `piece` and `colour`.
    pub open spec fn with_bits(self, piece: Piece, colour: Colour, bits: u64) -> Board {
        match (colour, piece) {
            (Colour::White, Piece::Pawn) => Board { w_p_bb: self.w_p_bb | bits, ..self },
            (Colour::White, Piece::Rook) => Board { w_r_bb: self.w_r_bb | bits, ..self },
            (Colour::White, Piece::Knight) => Board { w_n_bb: self.w_n_bb | bits, ..self },
            (Colour::White, Piece::Bishop) => Board { w_b_bb: self.w_b_bb | bits, ..self },
            (Colour::White, Piece::Queen) => Board { w_q_bb: self.w_q_bb | bits, ..self },
            (Colour::White, Piece::King) => Board { w_k_bb: self.w_k_bb | bits, ..self },
            (Colour::Black, Piece::Pawn) => Board { b_p_bb: self.b_p_bb | bits, ..self },
            (Colour::Black, Piece::Rook) => Board { b_r_bb: self.b_r_bb | bits, ..self },
            (Colour::Black, Piece::Knight) => Board { b_n_bb: self.b_n_bb | bits, ..self },
            (Colour::Black, Piece::Bishop) => Board { b_b_bb: self.b_b_bb | bits, ..self },
            (Colour::Black, Piece::Queen) => Board { b_q_bb: self.b_q_bb | bits, ..self },
            (Colour::Black, Piece::King) => Board { b_k_bb: self.b_k_bb | bits, ..self },
        }
    }

    /// This board with the squares of `bits` cleared in all twelve bitboards.
    pub open spec fn without(self, bits: u64) -> Board {
        Board {
            w_p_bb: self.w_p_bb & !bits,
            w_r_bb: self.w_r_bb & !bits,
            w_n_bb: self.w_n_bb & !bits,
            w_b_bb: self.w_b_bb & !bits,
            w_q_bb: self.w_q_bb & !bits,
            w_k_bb: self.w_k_bb & !bits,
            b_p_bb: self.b_p_bb & !bits,
            b_r_bb: self.b_r_bb & !bits,
            b_n_bb: self.b_n_bb & !bits,
            b_b_bb: self.b_b_bb & !bits,
            b_q_bb: self.b_q_bb & !bits,
            b_k_bb: self.b_k_bb & !bits,
        }
    }

    /// The placement field of FEN: ranks 8 to 1, files a to h.
    pub open spec fn placement_text(self) -> Seq<char> {
        self.ranks_text(7)
    }
}

/// Two bitboards meet exactly when some square is in both.
pub proof fn lemma_meets(x: u64, y: u64)
    ensures
        ((x & y) != 0) == exists|t: int| #[trigger] has_sq(x, t) && has_sq(y, t),
{
    if (x & y) != 0 {
        if !exists|t: int| #[trigger] has_sq(x, t) && has_sq(y, t) {
            assert forall|t: int| is_square(t) implies #[trigger] has_sq(x & y, t) == has_sq(0u64, t) by {
                lemma_has_zero(t);
            }
            lemma_bitboard_ext(x & y, 0u64);
        }
    } else {
        assert forall|t: int| !(#[trigger] has_sq(x, t) && has_sq(y, t)) by {
            lemma_has_zero(t);
            assert(has_sq(x & y, t) == (has_sq(x, t) && has_sq(y, t)));
        }
    }
}

/// A mask meets a one-square bitboard exactly when it holds that square.
pub proof fn lemma_meets_single(m: u64, s: int)
    requires
        is_square(s),
    ensures
        ((m & single(s)) != 0) == has_sq(m, s),
{
    lemma_has_single(s, s);
    if has_sq(m, s) {
        assert(has_sq(m & single(s), s));
        lemma_has_zero(s);
    } else {
        assert forall|t: int| is_square(t) implies #[trigger] has_sq(m & single(s), t) == has_sq(
            0u64,
            t,
        ) by {
            lemma_has_single(s, t);
        }
        lemma_bitboard_ext(m & single(s), 0u64);
    }
}

/// A square lies within a mask exactly when the mask holds it.
pub proof fn lemma_covers_single(m: u64, s: int)
    requires
        is_square(s),
    ensures
        covers(m, single(s)) == has_sq(m, s),
{
    lemma_has_single(s, s);
    if has_sq(m, s) {
        assert forall|t: int| is_square(t) implies #[trigger] has_sq(m & single(s), t) == has_sq(
            single(s),
            t,
        ) by {
            lemma_has_single(s, t);
        }
        lemma_bitboard_ext(m & single(s), single(s));
    }
}

impl Board {
    /// The empty board.
    pub fn new() -> (r: Board)
        ensures
            r == Board::empty_board(),
            forall|p: Piece, c: Colour| #[trigger] r.mask(p, c) == 0,
    {
        Board {
            w_p_bb: 0,
            w_r_bb: 0,
            w_n_bb: 0,
            w_b_bb: 0,
            w_q_bb: 0,
            w_k_bb: 0,
            b_p_bb: 0,
            b_r_bb: 0,
            b_n_bb: 0,
            b_b_bb: 0,
            b_q_bb: 0,
            b_k_bb: 0,
        }
    }

    /// Adds the squares of `bits` to the bitboard of `piece` and `colour`.
    pub fn add_piece(&mut self, piece: Piece, colour: Colour, bits: u64)
        ensures
            *final(self) == old(self).with_bits(piece, colour, bits),
    {
        match (colour, piece) {
            (Colour::White, Piece::Pawn) => self.w_p_bb = self.w_p_bb | bits,
            (Colour::White, Piece::Rook) => self.w_r_bb = self.w_r_bb | bits,
            (Colour::White, Piece::Knight) => self.w_n_bb = self.w_n_bb | bits,
            (Colour::White, Piece::Bishop) => self.w_b_bb = self.w_b_bb | bits,
            (Colour::White, Piece::Queen) => self.w_q_bb = self.w_q_bb | bits,
            (Colour::White, Piece::King) => self.w_k_bb = self.w_k_bb | bits,
            (Colour::Black, Piece::Pawn) => self.b_p_bb = self.b_p_bb | bits,
            (Colour::Black, Piece::Rook) => self.b_r_bb = self.b_r_bb | bits,
            (Colour::Black, Piece::Knight) => self.b_n_bb = self.b_n_bb | bits,
            (Colour::Black, Piece::Bishop) => self.b_b_bb = self.b_b_bb | bits,
            (Colour::Black, Piece::Queen) => self.b_q_bb = self.b_q_bb | bits,
            (Colour::Black, Piece::King) => self.b_k_bb = self.b_k_bb | bits,
        }
    }

    /// Clears the squares of `bits` in all twelve bitboards.
    pub fn remove_bits(&mut self, bits: u64)
        ensures
            *final(self) == old(self).without(bits),
    {
        let keep = !bits;
        self.w_p_bb = self.w_p_bb & keep;
        self.w_r_bb = self.w_r_bb & keep;
        self.w_n_bb = self.w_n_bb & keep;
        self.w_b_bb = self.w_b_bb & keep;
        self.w_q_bb = self.w_q_bb & keep;
        self.w_k_bb = self.w_k_bb & keep;
        self.b_p_bb = self.b_p_bb & keep;
        self.b_r_bb = self.b_r_bb & keep;
        self.b_n_bb = self.b_n_bb & keep;
        self.b_b_bb = self.b_b_bb & keep;
        self.b_q_bb = self.b_q_bb & keep;
        self.b_k_bb = self.b_k_bb & keep;
    }

    /// The bitboard of one piece kind of one colour.
    pub fn piece_bb(&self, piece: Piece, colour: Colour) -> (r: u64)
        ensures
            r == self.mask(piece, colour),
    {
        match (colour, piece) {
            (Colour::White, Piece::Pawn) => self.w_p_bb,
            (Colour::White, Piece::Rook) => self.w_r_bb,
            (Colour::White, Piece::Knight) => self.w_n_bb,
            (Colour::White, Piece::Bishop) => self.w_b_bb,
            (Colour::White, Piece::Queen) => self.w_q_bb,
            (Colour::White, Piece::King) => self.w_k_bb,
            (Colour::Black, Piece::Pawn) => self.b_p_bb,
            (Colour::Black, Piece::Rook) => self.b_r_bb,
            (Colour::Black, Piece::Knight) => self.b_n_bb,
            (Colour::Black, Piece::Bishop) => self.b_b_bb,
            (Colour::Black, Piece::Queen) => self.b_q_bb,
            (Colour::Black, Piece::King) => self.b_k_bb,
        }
    }

    /// Every empty square.
    pub fn unoccupied_bb(&self) -> (r: u64)
        ensures
            r == self.empty_bb(),
            forall|t: int| #[trigger] has_sq(r, t) == self.is_empty_sq(t),
    {
        !self.occupied_bb()
    }

    /// Every occupied square.
    pub fn occupied_bb(&self) -> (r: u64)
        ensures
            r == self.colour_mask(Colour::White) | self.colour_mask(Colour::Black),
            forall|t: int| #[trigger]
                has_sq(r, t) == (self.occupied_by(Colour::White, t) || self.occupied_by(
                    Colour::Black,
                    t,
                )),
    {
        self.white_bb() | self.black_bb()
    }

    /// Every square that a white piece stands on.
    pub fn white_bb(&self) -> (r: u64)
        ensures
            r == self.colour_mask(Colour::White),
            forall|t: int| #[trigger] has_sq(r, t) == self.occupied_by(Colour::White, t),
    {
        self.w_p_bb | self.w_r_bb | self.w_n_bb | self.w_b_bb | self.w_q_bb | self.w_k_bb
    }

    /// Every square that a black piece stands on.
    pub fn black_bb(&self) -> (r: u64)
        ensures
            r == self.colour_mask(Colour::Black),
            forall|t: int| #[trigger] has_sq(r, t) == self.occupied_by(Colour::Black, t),
    {
        self.b_p_bb | self.b_r_bb | self.b_n_bb | self.b_b_bb | self.b_q_bb | self.b_k_bb
    }

    /// Every square that a piece of the other colour than `colour` stands on.
    pub fn opponent_bb(&self, colour: Colour) -> (r: u64)
        ensures
            forall|t: int| #[trigger] has_sq(r, t) == self.occupied_by(colour.other(), t),
    {
        match colour {
            Colour::White => self.black_bb(),
            Colour::Black => self.white_bb(),
        }
    }

    /// The empty squares one step in front of the pawns on `sq`.
    pub fn pawn_single_push(&self, sq: u64, colour: Colour) -> (r: u64)
        ensures
            forall|t: int| #[trigger]
                has_sq(r, t) == single_push_target(
                    sq,
                    self.empty_bb(),
                    colour == Colour::White,
                    t,
                ),
    {
        match colour {
            Colour::White => pawn_single_pushes_bb(sq, self.unoccupied_bb(), true),
            Colour::Black => pawn_single_pushes_bb(sq, self.unoccupied_bb(), false),
        }
    }

    /// The squares two steps in front of the pawns on `sq` that stand on their
    /// starting rank, over and onto empty squares.
    pub fn pawn_double_push(&self, sq: u64, colour: Colour) -> (r: u64)
        ensures
            forall|t: int| #[trigger]
                has_sq(r, t) == double_push_target(
                    sq,
                    self.empty_bb(),
                    colour == Colour::White,
                    t,
                ),
    {
        match colour {
            Colour::White => pawn_double_pushes_bb(sq, self.unoccupied_bb(), true),
            Colour::Black => pawn_double_pushes_bb(sq, self.unoccupied_bb(), false),
        }
    }

    /// The squares holding an opposing piece that pawns of `colour` on `sq` can capture.
    pub fn pawn_attacks(&self, sq: u64, colour: Colour) -> (r: u64)
        ensures
            forall|t: int| #[trigger] has_sq(r, t) == self.attacks_from(Piece::Pawn, colour, sq, t),
    {
        match colour {
            Colour::White => pawn_attacks_bb(sq, true) & self.black_bb(),
            Colour::Black => pawn_attacks_bb(sq, false) & self.white_bb(),
        }
    }

    /// The empty squares that pawns of `colour` can push to, one step.
    pub fn all_pawn_single_pushes(&self, colour: Colour) -> (r: u64)
        ensures
            forall|t: int| #[trigger]
                has_sq(r, t) == single_push_target(
                    self.mask(Piece::Pawn, colour),
                    self.empty_bb(),
                    colour == Colour::White,
                    t,
                ),
    {
        self.pawn_single_push(self.piece_bb(Piece::Pawn, colour), colour)
    }

    /// The squares that pawns of `colour` can push to, two steps.
    pub fn all_pawn_double_pushes(&self, colour: Colour) -> (r: u64)
        ensures
            forall|t: int| #[trigger]
                has_sq(r, t) == double_push_target(
                    self.mask(Piece::Pawn, colour),
                    self.empty_bb(),
                    colour == Colour::White,
                    t,
                ),
    {
        self.pawn_double_push(self.piece_bb(Piece::Pawn, colour), colour)
    }

    /// The opposing pieces that pawns of `colour` can capture.
    pub fn all_pawn_attacks(&self, colour: Colour) -> (r: u64)
        ensures
            forall|t: int| #[trigger]
                has_sq(r, t) == self.attacks_from(
                    Piece::Pawn,
                    colour,
                    self.mask(Piece::Pawn, colour),
                    t,
                ),
    {
        self.pawn_attacks(self.piece_bb(Piece::Pawn, colour), colour)
    }

    /// The empty squares that knights on `sq` can move to.
    pub fn knight_moves(&self, sq: u64) -> (r: u64)
        ensures
            forall|t: int| #[trigger] has_sq(r, t) == (knight_targets(sq, t) && self.is_empty_sq(t)),
    {
        knight_moves_bb(sq) & self.unoccupied_bb()
    }

    /// The opposing pieces that knights of `colour` on `sq` can capture.
    pub fn knight_attacks(&self, sq: u64, colour: Colour) -> (r: u64)
        ensures
            forall|t: int| #[trigger] has_sq(r, t) == self.attacks_from(Piece::Knight, colour, sq, t),
    {
        knight_moves_bb(sq) & self.opponent_bb(colour)
    }

    /// The empty squares that the knights of `colour` can move to.
    pub fn all_knight_moves(&self, colour: Colour) -> (r: u64)
        ensures
            forall|t: int| #[trigger] has_sq(r, t) == (knight_targets(self.mask(Piece::Knight, colour), t) && self.is_empty_sq(t)),
    {
        self.knight_moves(self.piece_bb(Piece::Knight, colour))
    }

    /// The opposing pieces that the knights of `colour` can capture.
    pub fn all_knight_attacks(&self, colour: Colour) -> (r: u64)
        ensures
            forall|t: int| #[trigger]
                has_sq(r, t) == self.attacks_from(Piece::Knight, colour, self.mask(Piece::Knight, colour), t),
    {
        self.knight_attacks(self.piece_bb(Piece::Knight, colour), colour)
    }

    /// The empty squares that kings on `sq` can move to.
    pub fn king_moves(&self, sq: u64) -> (r: u64)
        ensures
            forall|t: int| #[trigger] has_sq(r, t) == (king_targets(sq, t) && self.is_empty_sq(t)),
    {
        king_moves_bb(sq) & self.unoccupied_bb()
    }

    /// The opposing pieces that kings of `colour` on `sq` can capture.
    pub fn king_attacks(&self, sq: u64, colour: Colour) -> (r: u64)
        ensures
            forall|t: int| #[trigger] has_sq(r, t) == self.attacks_from(Piece::King, colour, sq, t),
    {
        king_moves_bb(sq) & self.opponent_bb(colour)
    }

    /// The empty squares that the kings of `colour` can move to.
    pub fn all_king_moves(&self, colour: Colour) -> (r: u64)
        ensures
            forall|t: int| #[trigger] has_sq(r, t) == (king_targets(self.mask(Piece::King, colour), t) && self.is_empty_sq(t)),
    {
        self.king_moves(self.piece_bb(Piece::King, colour))
    }

    /// The opposing pieces that the kings of `colour` can capture.
    pub fn all_king_attacks(&self, colour: Colour) -> (r: u64)
        ensures
            forall|t: int| #[trigger]
                has_sq(r, t) == self.attacks_from(Piece::King, colour, self.mask(Piece::King, colour), t),
    {
        self.king_attacks(self.piece_bb(Piece::King, colour), colour)
    }

    /// The empty squares that bishops on `sq` can move to.
    pub fn bishop_moves(&self, sq: u64) -> (r: u64)
        ensures
            forall|t: int| #[trigger] has_sq(r, t) == (bishop_targets(sq, self.empty_bb(), t) && self.is_empty_sq(t)),
    {
        bish_moves_bb(sq, self.unoccupied_bb()) & self.unoccupied_bb()
    }

    /// The opposing pieces that bishops of `colour` on `sq` can capture.
    pub fn bishop_attacks(&self, sq: u64, colour: Colour) -> (r: u64)
        ensures
            forall|t: int| #[trigger] has_sq(r, t) == self.attacks_from(Piece::Bishop, colour, sq, t),
    {
        bish_moves_bb(sq, self.unoccupied_bb()) & self.opponent_bb(colour)
    }

    /// The empty squares that the bishops of `colour` can move to.
    pub fn all_bishop_moves(&self, colour: Colour) -> (r: u64)
        ensures
            forall|t: int| #[trigger] has_sq(r, t) == (bishop_targets(self.mask(Piece::Bishop, colour), self.empty_bb(), t) && self.is_empty_sq(t)),
    {
        self.bishop_moves(self.piece_bb(Piece::Bishop, colour))
    }

    /// The opposing pieces that the bishops of `colour` can capture.
    pub fn all_bishop_attacks(&self, colour: Colour) -> (r: u64)
        ensures
            forall|t: int| #[trigger]
                has_sq(r, t) == self.attacks_from(Piece::Bishop, colour, self.mask(Piece::Bishop, colour), t),
    {
        self.bishop_attacks(self.piece_bb(Piece::Bishop, colour), colour)
    }

    /// The empty squares that rooks on `sq` can move to.
    pub fn rook_moves(&self, sq: u64) -> (r: u64)
        ensures
            forall|t: int| #[trigger] has_sq(r, t) == (rook_targets(sq, self.empty_bb(), t) && self.is_empty_sq(t)),
    {
        rook_moves_bb(sq, self.unoccupied_bb()) & self.unoccupied_bb()
    }

    /// The opposing pieces that rooks of `colour` on `sq` can capture.
    pub fn rook_attacks(&self, sq: u64, colour: Colour) -> (r: u64)
        ensures
            forall|t: int| #[trigger] has_sq(r, t) == self.attacks_from(Piece::Rook, colour, sq, t),
    {
        rook_moves_bb(sq, self.unoccupied_bb()) & self.opponent_bb(colour)
    }

    /// The empty squares that the rooks of `colour` can move to.
    pub fn all_rook_moves(&self, colour: Colour) -> (r: u64)
        ensures
            forall|t: int| #[trigger] has_sq(r, t) == (rook_targets(self.mask(Piece::Rook, colour), self.empty_bb(), t) && self.is_empty_sq(t)),
    {
        self.rook_moves(self.piece_bb(Piece::Rook, colour))
    }

    /// The opposing pieces that the rooks of `colour` can capture.
    pub fn all_rook_attacks(&self, colour: Colour) -> (r: u64)
        ensures
            forall|t: int| #[trigger]
                has_sq(r, t) == self.attacks_from(Piece::Rook, colour, self.mask(Piece::Rook, colour), t),
    {
        self.rook_attacks(self.piece_bb(Piece::Rook, colour), colour)
    }

    /// The empty squares that queens on `sq` can move to.
    pub fn queen_moves(&self, sq: u64) -> (r: u64)
        ensures
            forall|t: int| #[trigger] has_sq(r, t) == ((rook_targets(sq, self.empty_bb(), t) || bishop_targets(sq, self.empty_bb(), t)) && self.is_empty_sq(t)),
    {
        (rook_moves_bb(sq, self.unoccupied_bb()) | bish_moves_bb(sq, self.unoccupied_bb())) & self.unoccupied_bb()
    }

    /// The opposing pieces that queens of `colour` on `sq` can capture.
    pub fn queen_attacks(&self, sq: u64, colour: Colour) -> (r: u64)
        ensures
            forall|t: int| #[trigger] has_sq(r, t) == self.attacks_from(Piece::Queen, colour, sq, t),
    {
        (rook_moves_bb(sq, self.unoccupied_bb()) | bish_moves_bb(sq, self.unoccupied_bb())) & self.opponent_bb(colour)
    }

    /// The empty squares that the queens of `colour` can move to.
    pub fn all_queen_moves(&self, colour: Colour) -> (r: u64)
        ensures
            forall|t: int| #[trigger] has_sq(r, t) == ((rook_targets(self.mask(Piece::Queen, colour), self.empty_bb(), t) || bishop_targets(self.mask(Piece::Queen, colour), self.empty_bb(), t)) && self.is_empty_sq(t)),
    {
        self.queen_moves(self.piece_bb(Piece::Queen, colour))
    }

    /// The opposing pieces that the queens of `colour` can capture.
    pub fn all_queen_attacks(&self, colour: Colour) -> (r: u64)
        ensures
            forall|t: int| #[trigger]
                has_sq(r, t) == self.attacks_from(Piece::Queen, colour, self.mask(Piece::Queen, colour), t),
    {
        self.queen_attacks(self.piece_bb(Piece::Queen, colour), colour)
    }

    /// Every opposing piece that some piece of `colour` can capture
    /// (en passant left aside).
    pub fn all_attacks(&self, colour: Colour) -> (r: u64)
        ensures
            forall|t: int| #[trigger] has_sq(r, t) == self.attacked_by(colour, t),
    {
        self.all_pawn_attacks(colour) | self.all_knight_attacks(colour) | self.all_king_attacks(
            colour,
        ) | self.all_bishop_attacks(colour) | self.all_rook_attacks(colour)
            | self.all_queen_attacks(colour)
    }

    /// Every black piece that some white piece can capture (en passant left aside).
    pub fn all_white_attacks(&self) -> (r: u64)
        ensures
            forall|t: int| #[trigger] has_sq(r, t) == self.attacked_by(Colour::White, t),
    {
        self.all_attacks(Colour::White)
    }

    /// Every white piece that some black piece can capture (en passant left aside).
    pub fn all_black_attacks(&self) -> (r: u64)
        ensures
            forall|t: int| #[trigger] has_sq(r, t) == self.attacked_by(Colour::Black, t),
    {
        self.all_attacks(Colour::Black)
    }

    /// Some white piece can capture on `sq`.
    pub fn piece_is_attacked_by_white(&self, sq: Square) -> (r: bool)
        ensures
            r == self.attacked_by(Colour::White, sq.index()),
    {
        self.piece_is_attacked_by(sq, Colour::White)
    }

    /// Some black piece can capture on `sq`.
    pub fn piece_is_attacked_by_black(&self, sq: Square) -> (r: bool)
        ensures
            r == self.attacked_by(Colour::Black, sq.index()),
    {
        self.piece_is_attacked_by(sq, Colour::Black)
    }

    /// Some piece of `colour` can capture on `sq`.
    pub fn piece_is_attacked_by(&self, sq: Square, colour: Colour) -> (r: bool)
        ensures
            r == self.attacked_by(colour, sq.index()),
    {
        let b = sq.to_bb();
        let a = self.all_attacks(colour);
        proof {
            lemma_covers_single(a, sq.index());
        }
        (a & b) == b
    }

    /// The king of `colour` is attacked. The colour must have exactly one king.
    pub fn is_in_check(&self, colour: Colour) -> (r: bool)
        requires
            self.one_king(colour),
        ensures
            r == self.in_check(colour),
    {
        let king = Square::from_bb(self.piece_bb(Piece::King, colour));
        let r = self.piece_is_attacked_by(king, colour.opponent());
        proof {
            let k = king.index();
            lemma_has_single(k, k);
            if self.in_check(colour) {
                let s = choose|s: int| #[trigger]
                    has_sq(self.mask(Piece::King, colour), s) && self.attacked_by(colour.other(), s);
                lemma_has_single(k, s);
            }
        }
        r
    }

    /// White's king is attacked. White must have exactly one king.
    pub fn white_king_is_in_check(&self) -> (r: bool)
        requires
            self.one_king(Colour::White),
        ensures
            r == self.in_check(Colour::White),
    {
        self.is_in_check(Colour::White)
    }

    /// Black's king is attacked. Black must have exactly one king.
    pub fn black_king_is_in_check(&self) -> (r: bool)
        requires
            self.one_king(Colour::Black),
        ensures
            r == self.in_check(Colour::Black),
    {
        self.is_in_check(Colour::Black)
    }

    /// The first of the twelve bitboards, in the order white pawn, rook,
    /// knight, bishop, queen, king, then black in the same order, that covers
    /// `offset`; for a one-square `offset`, the piece on that square.
    pub fn piece_at(&self, offset: u64) -> (r: Option<(Piece, Colour)>)
        ensures
            r == self.piece_covering(offset),
            forall|s: int| is_square(s) && offset == single(s) ==> r == self.cell(s),
    {
        proof {
            assert forall|s: int| is_square(s) && offset == single(s) implies self.piece_covering(
                offset,
            ) == self.cell(s) by {
                lemma_covers_single(self.w_p_bb, s);
                lemma_covers_single(self.w_r_bb, s);
                lemma_covers_single(self.w_n_bb, s);
                lemma_covers_single(self.w_b_bb, s);
                lemma_covers_single(self.w_q_bb, s);
                lemma_covers_single(self.w_k_bb, s);
                lemma_covers_single(self.b_p_bb, s);
                lemma_covers_single(self.b_r_bb, s);
                lemma_covers_single(self.b_n_bb, s);
                lemma_covers_single(self.b_b_bb, s);
                lemma_covers_single(self.b_q_bb, s);
                lemma_covers_single(self.b_k_bb, s);
            }
        }
        if (self.w_p_bb & offset) == offset {
            Some((Piece::Pawn, Colour::White))
        } else if (self.w_r_bb & offset) == offset {
            Some((Piece::Rook, Colour::White))
        } else if (self.w_n_bb & offset) == offset {
            Some((Piece::Knight, Colour::White))
        } else if (self.w_b_bb & offset) == offset {
            Some((Piece::Bishop, Colour::White))
        } else if (self.w_q_bb & offset) == offset {
            Some((Piece::Queen, Colour::White))
        } else if (self.w_k_bb & offset) == offset {
            Some((Piece::King, Colour::White))
        } else if (self.b_p_bb & offset) == offset {
            Some((Piece::Pawn, Colour::Black))
        } else if (self.b_r_bb & offset) == offset {
            Some((Piece::Rook, Colour::Black))
        } else if (self.b_n_bb & offset) == offset {
            Some((Piece::Knight, Colour::Black))
        } else if (self.b_b_bb & offset) == offset {
            Some((Piece::Bishop, Colour::Black))
        } else if (self.b_q_bb & offset) == offset {
            Some((Piece::Queen, Colour::Black))
        } else if (self.b_k_bb & offset) == offset {
            Some((Piece::King, Colour::Black))
        } else {
            None
        }
    }

    /// The placement field of FEN for this board: ranks 8 to 1 separated by
    /// `/`, files a to h, a letter per piece and a digit per run of empty squares.
    pub fn stringify(&self) -> (r: String)
        ensures
            r@ == self.placement_text(),
    {
        let mut out = String::new();
        let mut r: i8 = 7;
        while r >= 0
            invariant
                -1 <= r <= 7,
                out@ + (if r >= 0 {
                    self.ranks_text(r as int)
                } else {
                    Seq::empty()
                }) == self.ranks_text(7),
            decreases r + 1,
        {
            let line = self.rank_string(r as u8);
            let ghost before = out@;
            out.append(line.as_str());
            if r > 0 {
                push_char(&mut out, '/');
                proof {
                    assert(self.ranks_text(r as int) == self.rank_text(r as int, 0, 0) + seq!['/']
                        + self.ranks_text(r - 1));
                    assert(out@ + self.ranks_text(r - 1) =~= before + self.ranks_text(r as int));
                }
            } else {
                proof {
                    assert(out@ =~= before + self.ranks_text(r as int));
                }
            }
            r = r - 1;
        }
        proof {
            assert(out@ + Seq::<char>::empty() =~= out@);
        }
        out
    }

    /// The text of one rank, files a to h.
    fn rank_string(&self, r: u8) -> (line: String)
        requires
            r < 8,
        ensures
            line@ == self.rank_text(r as int, 0, 0),
    {
        let mut line = String::new();
        let mut f: u8 = 0;
        let mut run: u8 = 0;
        while f < 8
            invariant
                r < 8,
                f <= 8,
                run <= f,
                line@ + self.rank_text(r as int, f as int, run as int) == self.rank_text(r as int, 0, 0),
            decreases 8 - f,
        {
            let s = (r as u64) * 8 + (f as u64);
            let ghost before = line@;
            let at = self.piece_at(1u64 << s);
            proof {
                assert(is_square(s as int));
                assert((1u64 << s) == single(s as int));
                assert(at == self.cell(s as int));
            }
            match at {
                None => {
                    run = run + 1;
                },
                Some((p, c)) => {
                    if run > 0 {
                        push_char(&mut line, digit(run));
                    }
                    push_char(&mut line, piece_letter(p, c));
                    proof {
                        assert(line@ =~= before + run_text(run as int) + seq![piece_char(p, c)]);
                        assert(self.rank_text(r as int, f as int, run as int) == run_text(run as int)
                            + seq![piece_char(p, c)] + self.rank_text(r as int, f + 1, 0));
                        assert(line@ + self.rank_text(r as int, f + 1, 0) =~= before
                            + self.rank_text(r as int, f as int, run as int));
                    }
                    run = 0;
                },
            }
            f = f + 1;
        }
        if run > 0 {
            push_char(&mut line, digit(run));
        }
        proof {
            assert(line@ =~= line@);
        }
        line
    }

    /// What the piece on `sq` can do: the opposing pieces it can capture and
    /// the empty squares it can move to (a pawn: its single and double pushes).
    /// An empty square gives nothing. Pins and checks are not looked at.
    pub fn possible_moves(&self, sq: Square) -> (r: (u64, u64))
        ensures
            forall|t: int| #[trigger] has_sq(r.0, t) == self.capture_target(sq.index(), t),
            forall|t: int| #[trigger] has_sq(r.1, t) == self.quiet_target(sq.index(), t),
    {
        let b = sq.as_bb();
        match self.piece_at(b) {
            Some((p, c)) => match p {
                Piece::Pawn => (
                    self.pawn_attacks(b, c),
                    self.pawn_single_push(b, c) | self.pawn_double_push(b, c),
                ),
                Piece::Knight => (self.knight_attacks(b, c), self.knight_moves(b)),
                Piece::Bishop => (self.bishop_attacks(b, c), self.bishop_moves(b)),
                Piece::Rook => (self.rook_attacks(b, c), self.rook_moves(b)),
                Piece::Queen => (self.queen_attacks(b, c), self.queen_moves(b)),
                Piece::King => (self.king_attacks(b, c), self.king_moves(b)),
            },
            None => (0, 0),
        }
    }

    /// The piece on `sq` is pinned against the king of the colour named
    /// (white when `is_white`): see `pinned`.
    pub fn piece_is_pinned_to_king(&self, sq: Square, is_white: bool) -> (r: bool)
        ensures
            r == self.pinned(sq.index(), if is_white { Colour::White } else { Colour::Black }),
    {
        let colour = if is_white { Colour::White } else { Colour::Black };
        let s = sq.as_bb();
        let own = if is_white { self.white_bb() } else { self.black_bb() };
        proof {
            lemma_meets_single(own, sq.index());
        }
        if own & s == 0 {
            return false;
        }
        let other = colour.opponent();
        let straight = self.piece_bb(Piece::Rook, other) | self.piece_bb(Piece::Queen, other);
        let diagonal = self.piece_bb(Piece::Bishop, other) | self.piece_bb(Piece::Queen, other);
        self.pinned_towards(sq, colour, Direction::North, straight)
            || self.pinned_towards(sq, colour, Direction::South, straight)
            || self.pinned_towards(sq, colour, Direction::East, straight)
            || self.pinned_towards(sq, colour, Direction::West, straight)
            || self.pinned_towards(sq, colour, Direction::NorthEast, diagonal)
            || self.pinned_towards(sq, colour, Direction::NorthWest, diagonal)
            || self.pinned_towards(sq, colour, Direction::SouthEast, diagonal)
            || self.pinned_towards(sq, colour, Direction::SouthWest, diagonal)
    }

    fn pinned_towards(&self, sq: Square, colour: Colour, dir: Direction, sliders: u64) -> (r: bool)
        ensures
            r == self.pinned_along(sq.index(), colour, dir.df(), dir.dr(), sliders),
    {
        let king = self.piece_bb(Piece::King, colour);
        let s = sq.as_bb();
        let empties = self.unoccupied_bb();
        let near = ray_attacks(king, empties, dir);
        proof {
            lemma_meets_single(near, sq.index());
        }
        if near & s == 0 {
            return false;
        }
        let beyond = ray_attacks(king, empties | s, dir);
        proof {
            lemma_meets(beyond, sliders);
            assert(forall|t: int| #[trigger] has_sq(sliders, t) && has_sq(beyond, t) <==> has_sq(beyond, t) && has_sq(sliders, t));
        }
        beyond & sliders != 0
    }

    /// The 64 squares in drawing order, each with its piece and its mark:
    /// pieces in `attacks` are marked attacked, empty squares in `moves` reachable.
    pub fn board_cells(&self, white_pov: bool, attacks: u64, moves: u64) -> (r: Vec<Cell>)
        ensures
            r@.len() == 64,
            forall|i: int| 0 <= i < 64 ==> {
                let s = drawn_square(white_pov, i);
                &&& (#[trigger] r@[i]).square == s
                &&& r@[i].piece == self.cell(s)
                &&& r@[i].mark == if self.cell(s).is_some() && has_sq(attacks, s) {
                    Mark::Attacked
                } else if self.cell(s).is_none() && has_sq(moves, s) {
                    Mark::Reachable
                } else {
                    Mark::Plain
                }
            },
    {
        let mut r: Vec<Cell> = Vec::new();
        let mut i: u8 = 0;
        while i < 64
            invariant
                i <= 64,
                r@.len() == i,
                forall|j: int| 0 <= j < i ==> {
                    let s = drawn_square(white_pov, j);
                    &&& (#[trigger] r@[j]).square == s
                    &&& r@[j].piece == self.cell(s)
                    &&& r@[j].mark == if self.cell(s).is_some() && has_sq(attacks, s) {
                        Mark::Attacked
                    } else if self.cell(s).is_none() && has_sq(moves, s) {
                        Mark::Reachable
                    } else {
                        Mark::Plain
                    }
                },
            decreases 64 - i,
        {
            let s: u8 = if white_pov {
                (7 - i / 8) * 8 + i % 8
            } else {
                (i / 8) * 8 + (7 - i % 8)
            };
            let b = 1u64 << s;
            proof {
                assert(is_square(s as int));
                assert(b == single(s as int));
                lemma_meets_single(attacks, s as int);
                lemma_meets_single(moves, s as int);
            }
            let piece = self.piece_at(b);
            let mark = match piece {
                Some(_) => if attacks & b != 0 {
                    Mark::Attacked
                } else {
                    Mark::Plain
                },
                None => if moves & b != 0 {
                    Mark::Reachable
                } else {
                    Mark::Plain
                },
            };
            r.push(Cell { square: s, piece, mark });
            i = i + 1;
        }
        r
    }
}

/// The FEN letter of a piece.
pub fn piece_letter(p: Piece, c: Colour) -> (r: char)
    ensures
        r == piece_char(p, c),
{
    match (c, p) {
        (Colour::White, Piece::Pawn) => 'P',
        (Colour::White, Piece::Rook) => 'R',
        (Colour::White, Piece::Knight) => 'N',
        (Colour::White, Piece::Bishop) => 'B',
        (Colour::White, Piece::Queen) => 'Q',
        (Colour::White, Piece::King) => 'K',
        (Colour::Black, Piece::Pawn) => 'p',
        (Colour::Black, Piece::Rook) => 'r',
        (Colour::Black, Piece::Knight) => 'n',
        (Colour::Black, Piece::Bishop) => 'b',
        (Colour::Black, Piece::Queen) => 'q',
        (Colour::Black, Piece::King) => 'k',
    }
}

/// The digit of a count of empty squares.
fn digit(n: u8) -> (c: char)
    requires
        1 <= n <= 8,
    ensures
        c == digit_char(n as int),
{
    match n {
        1 => '1',
        2 => '2',
        3 => '3',
        4 => '4',
        5 => '5',
        6 => '6',
        7 => '7',
        _ => '8',
    }
}

} // verus!
