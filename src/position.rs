//! A board together with the state of play: side to move, castling rights,
//! the fifty-move clock, the en-passant target, check and the last ply.
use vstd::prelude::*;
use crate::bitboard::{is_square, rank_of, single, lemma_has_lines, RANK_1, RANK_8};
use crate::board::{Board, lemma_meets_single};
use crate::ply::{Colour, Movement, Piece, Ply};
use crate::square::{Square, lemma_square_index};

verus! {

/// Castling rights in the upper four bits of `castling`, from the top:
/// white king side, white queen side, black king side, black queen side.
/// A right is withheld while the matching bit of the lower four bits is set.
#[derive(Clone, Copy, Debug)]
pub struct Position {
    pub board: Board,
    pub was_blacks_move: bool,
    pub castling: u8,
    pub ply_clock: u8,
    pub en_passant_targ: Option<u64>,
    pub check: Option<Colour>,
    pub last_ply: Option<Ply>,
}

impl Position {
    /// The en-passant target, if there is one, is a single square.
    pub open spec fn wf(self) -> bool {
        match self.en_passant_targ {
            Some(ep) => exists|s: int| is_square(s) && ep == single(s),
            None => true,
        }
    }

    /// An empty board with Black to move, no castling rights and no en-passant target.
    pub fn new() -> (r: Self)
        ensures
            r.board == Board::empty_board(),
            !r.was_blacks_move,
            r.castling == 0,
            r.ply_clock == 0,
            r.en_passant_targ.is_none(),
            r.check.is_none(),
            r.last_ply.is_none(),
    {
        Position {
            board: Board::new(),
            was_blacks_move: false,
            castling: 0,
            ply_clock: 0,
            en_passant_targ: None,
            check: None,
            last_ply: None,
        }
    }

    /// `colour` keeps its queen-side castling right and it is not withheld.
    pub fn colour_can_long_castle(&self, colour: Colour) -> (r: bool)
        ensures
            r == match colour {
                Colour::White => self.castling & 0x40 != 0 && self.castling & 0x04 == 0,
                Colour::Black => self.castling & 0x10 != 0 && self.castling & 0x01 == 0,
            },
    {
        match colour {
            Colour::White => self.castling & 0x40 != 0 && self.castling & 0x04 == 0,
            Colour::Black => self.castling & 0x10 != 0 && self.castling & 0x01 == 0,
        }
    }

    /// `colour` keeps its king-side castling right and it is not withheld.
    pub fn colour_can_short_castle(&self, colour: Colour) -> (r: bool)
        ensures
            r == match colour {
                Colour::White => self.castling & 0x80 != 0 && self.castling & 0x08 == 0,
                Colour::Black => self.castling & 0x20 != 0 && self.castling & 0x02 == 0,
            },
    {
        match colour {
            Colour::White => self.castling & 0x80 != 0 && self.castling & 0x08 == 0,
            Colour::Black => self.castling & 0x20 != 0 && self.castling & 0x02 == 0,
        }
    }

    /// The position records `colour` as being in check.
    pub fn colour_is_in_check(&self, colour: Colour) -> (r: bool)
        ensures
            r == (self.check == Some(colour)),
    {
        match self.check {
            Some(c) => c == colour,
            None => false,
        }
    }

    /// A pawn move onto the last rank of its colour.
    pub fn move_is_promotion(ply: Movement) -> (r: bool)
        ensures
            r == (ply.piece == Piece::Pawn && rank_of(ply.to_sq.index()) == match ply.player {
                Colour::White => 7int,
                Colour::Black => 0int,
            }),
    {
        if ply.piece != Piece::Pawn {
            return false;
        }
        let to = ply.to_sq.as_bb();
        proof {
            lemma_meets_single(RANK_8, ply.to_sq.index());
            lemma_meets_single(RANK_1, ply.to_sq.index());
            lemma_has_lines(ply.to_sq.index());
        }
        match ply.player {
            Colour::White => RANK_8 & to != 0,
            Colour::Black => RANK_1 & to != 0,
        }
    }

    /// The piece on `sq`, if any, is pinned against its own king.
    pub fn piece_is_pinned(&self, sq: Square) -> (r: bool)
        ensures
            r == match self.board.cell(sq.index()) {
                Some((_, c)) => self.board.pinned(sq.index(), c),
                None => false,
            },
    {
        proof {
            lemma_square_index(sq);
        }
        match self.board.piece_at(sq.as_bb()) {
            Some((_, c)) => self.board.piece_is_pinned_to_king(sq, c == Colour::White),
            None => false,
        }
    }

    /// The destination holds a piece of the other colour
    /// (legality is not looked at).
    pub fn move_is_capture(&self, ply: Movement) -> (r: bool)
        ensures
            r == self.board.occupied_by(ply.player.other(), ply.to_sq.index()),
    {
        let to = ply.to_sq.as_bb();
        match ply.player {
            Colour::White => {
                let theirs = self.board.black_bb();
                proof {
                    lemma_meets_single(theirs, ply.to_sq.index());
                }
                theirs & to != 0
            },
            Colour::Black => {
                let theirs = self.board.white_bb();
                proof {
                    lemma_meets_single(theirs, ply.to_sq.index());
                }
                theirs & to != 0
            },
        }
    }
}

} // verus!
