//! Pieces, colours, proposed moves and recorded plies.
use vstd::prelude::*;
use crate::square::Square;

verus! {

#[derive(Clone, Copy, Debug, PartialEq, Eq, Structural)]
pub enum Piece {
    Pawn,
    Knight,
    Bishop,
    Rook,
    Queen,
    King,
}

/// The pieces a pawn may be promoted to.
#[derive(Clone, Copy, Debug, PartialEq, Eq, Structural)]
pub enum PromotablePiece {
    Knight,
    Bishop,
    Rook,
    Queen,
}

#[derive(Clone, Copy, Debug, PartialEq, Eq, Structural)]
pub enum Colour {
    White,
    Black,
}

impl Colour {
    /// The other colour.
    pub open spec fn other(self) -> Colour {
        match self {
            Colour::White => Colour::Black,
            Colour::Black => Colour::White,
        }
    }

    /// The other colour.
    pub fn opponent(self) -> (r: Colour)
        ensures
            r == self.other(),
    {
        match self {
            Colour::White => Colour::Black,
            Colour::Black => Colour::White,
        }
    }
}

/// A proposed move: who moves which piece from where to where.
#[derive(Clone, Copy, Debug)]
pub struct Movement {
    pub player: Colour,
    pub piece: Piece,
    pub from_sq: Square,
    pub to_sq: Square,
}

impl Movement {
    pub fn new(player: Colour, piece: Piece, from_sq: Square, to_sq: Square) -> (r: Self)
        ensures
            r == (Movement { player, piece, from_sq, to_sq }),
    {
        Movement { player, piece, from_sq, to_sq }
    }
}

/// A move as it was made: the movement, whether it captured, and the promotion chosen.
#[derive(Clone, Copy, Debug)]
pub struct Ply {
    pub mov: Movement,
    pub is_capture: bool,
    pub promotion: Option<PromotablePiece>,
}

impl Ply {
    pub fn new(
        player: Colour,
        piece: Piece,
        from_sq: Square,
        to_sq: Square,
        is_capture: bool,
        is_promotion: Option<PromotablePiece>,
    ) -> (r: Self)
        ensures
            r == (Ply {
                mov: Movement { player, piece, from_sq, to_sq },
                is_capture,
                promotion: is_promotion,
            }),
    {
        Ply { mov: Movement::new(player, piece, from_sq, to_sq), is_capture, promotion: is_promotion }
    }

    pub fn from_move(mov: Movement, is_capture: bool, promotion: Option<PromotablePiece>) -> (r: Self)
        ensures
            r == (Ply { mov, is_capture, promotion }),
    {
        Ply { mov, is_capture, promotion }
    }
}

/// A move in compact form: a piece code, the two squares, and two flags.
#[derive(Clone, Copy, Debug)]
pub struct Move {
    pub piece: u8,
    pub from_sq: Square,
    pub to_sq: Square,
    pub is_capture: bool,
    pub is_promotion: bool,
}

impl Move {
    pub fn new(piece: u8, from_sq: Square, to_sq: Square, is_capture: bool, is_promotion: bool) -> (r: Self)
        ensures
            r == (Move { piece, from_sq, to_sq, is_capture, is_promotion }),
    {
        Move { piece, from_sq, to_sq, is_capture, is_promotion }
    }
}

} // verus!
