//! A game: the positions reached so far, oldest first, with the move and ply counters.
use vstd::prelude::*;
use crate::bitboard::{
    abs, has_sq, is_square, group_bitboard, rank_of, single, lemma_square_parts, RANK_2, RANK_7,
};
use crate::board::{Board, lemma_meets_single};
use crate::fen::{
    all_digits, castling_bit, castling_letters, castling_rights, decimal_value, decode_fen,
    digit_value, en_passant_field, lemma_castling_push, lemma_no_space_concat,
    lemma_placement_decodes_back, lemma_placement_no_space, lemma_split_one, lemma_split_push,
    no_space, parse_fen, parse_number, ply_count, split_fields, FenError,
};
use crate::position::Position;
use crate::ply::{Colour, Movement, Piece, Ply, PromotablePiece};
use crate::square::{parse_square, square_name, Square};
use crate::text::push_char;

verus! {

broadcast use group_bitboard;

/// The FEN of the initial position.
pub const INITIAL_FEN: &'static str = "rnbqkbnr/pppppppp/8/8/8/8/PPPPPPPP/RNBQKBNR w KQkq - 0 1";

#[derive(Clone, Copy, Debug, PartialEq, Eq, Structural)]
pub enum DrawKind {
    Stalemate,
    Mutual,
    ThreeFold,
    FiveFold,
    FiftyMove,
}

#[derive(Clone, Copy, Debug, PartialEq, Eq, Structural)]
pub enum WinKind {
    Surrender,
    Checkmate,
}

/// How a game ended; the colour named is the winner.
#[derive(Clone, Copy, Debug, PartialEq, Eq, Structural)]
pub enum State {
    White(WinKind),
    Black(WinKind),
    Draw(DrawKind),
    Terminated,
}

/// The history only grows; its last position is the current one.
#[derive(Debug)]
pub struct Game {
    pub history: Vec<Position>,
    pub ply: u16,
    pub mov: u16,
    pub state: Option<State>,
}

/// The character of a decimal digit.
pub open spec fn dec_char(d: int) -> char {
    if d == 0 { '0' } else if d == 1 { '1' } else if d == 2 { '2' } else if d == 3 { '3' }
    else if d == 4 { '4' } else if d == 5 { '5' } else if d == 6 { '6' } else if d == 7 { '7' }
    else if d == 8 { '8' } else { '9' }
}

/// `n` in decimal, without leading zeros.
pub open spec fn decimal_text(n: nat) -> Seq<char>
    decreases n,
{
    if n < 10 {
        seq![dec_char(n as int)]
    } else {
        decimal_text(n / 10) + seq![dec_char((n % 10) as int)]
    }
}

/// The castling field: the letters of the rights held, in the order `KQkq`, or `-`.
pub open spec fn castling_text(c: u8) -> Seq<char> {
    let t = (if c & 0x80 != 0 {
        seq!['K']
    } else {
        Seq::empty()
    }) + (if c & 0x40 != 0 {
        seq!['Q']
    } else {
        Seq::empty()
    }) + (if c & 0x20 != 0 {
        seq!['k']
    } else {
        Seq::empty()
    }) + (if c & 0x10 != 0 {
        seq!['q']
    } else {
        Seq::empty()
    });
    if t.len() == 0 {
        seq!['-']
    } else {
        t
    }
}

/// The en-passant field: the target's name, or `-`.
pub open spec fn en_passant_text(ep: Option<u64>) -> Seq<char> {
    match ep {
        Some(x) => square_name(choose|s: int| is_square(s) && x == single(s)),
        None => seq!['-'],
    }
}

/// The FEN of a position at a given full-move number.
pub open spec fn encode_fen(pos: Position, mov: u16) -> Seq<char> {
    pos.board.placement_text() + seq![' '] + (if pos.was_blacks_move {
        seq!['w']
    } else {
        seq!['b']
    }) + seq![' '] + castling_text(pos.castling) + seq![' '] + en_passant_text(
        pos.en_passant_targ,
    ) + seq![' '] + decimal_text(pos.ply_clock as nat) + seq![' '] + decimal_text(mov as nat)
}

/// The initial position, White to move.
pub open spec fn initial_position() -> Position {
    Position {
        board: Board {
            w_p_bb: RANK_2,
            w_r_bb: 0x81,
            w_n_bb: 0x42,
            w_b_bb: 0x24,
            w_q_bb: 0x08,
            w_k_bb: 0x10,
            b_p_bb: RANK_7,
            b_r_bb: 0x8100000000000000,
            b_n_bb: 0x4200000000000000,
            b_b_bb: 0x2400000000000000,
            b_q_bb: 0x0800000000000000,
            b_k_bb: 0x1000000000000000,
        },
        was_blacks_move: true,
        castling: 0xF0,
        ply_clock: 0,
        en_passant_targ: None,
        check: None,
        last_ply: None,
    }
}

/// The piece that stands on the destination after a ply: the promotion choice, or the piece moved.
pub open spec fn placed_piece(ply: Ply) -> Piece {
    match ply.promotion {
        Some(PromotablePiece::Queen) => Piece::Queen,
        Some(PromotablePiece::Rook) => Piece::Rook,
        Some(PromotablePiece::Bishop) => Piece::Bishop,
        Some(PromotablePiece::Knight) => Piece::Knight,
        None => ply.mov.piece,
    }
}

/// Castling rights after a ply: a king move drops both rights of its colour,
/// and a move from or to a rook's home corner drops the right on that side.
pub open spec fn castling_after(c: u8, ply: Ply) -> u8 {
    let from = ply.mov.from_sq.index();
    let to = ply.mov.to_sq.index();
    let king = if ply.mov.piece == Piece::King {
        match ply.mov.player {
            Colour::White => 0xC0u8,
            Colour::Black => 0x30u8,
        }
    } else {
        0u8
    };
    let a1 = if from == 0 || to == 0 { 0x40u8 } else { 0u8 };
    let h1 = if from == 7 || to == 7 { 0x80u8 } else { 0u8 };
    let a8 = if from == 56 || to == 56 { 0x10u8 } else { 0u8 };
    let h8 = if from == 63 || to == 63 { 0x20u8 } else { 0u8 };
    c & !(king | a1 | h1 | a8 | h8)
}

/// The position after a ply: the piece leaves its square, whatever stood on
/// the destination is removed, and the moved (or promoted) piece stands
/// there. The fifty-move clock restarts on a pawn move or a capture, and a
/// pawn's double step leaves the square it passed over as en-passant target.
pub open spec fn after_ply(pos: Position, ply: Ply) -> Position {
    let from = ply.mov.from_sq.index();
    let to = ply.mov.to_sq.index();
    let pawn = ply.mov.piece == Piece::Pawn;
    Position {
        board: pos.board.without(single(from) | single(to)).with_bits(
            placed_piece(ply),
            ply.mov.player,
            single(to),
        ),
        was_blacks_move: ply.mov.player == Colour::Black,
        castling: castling_after(pos.castling, ply),
        ply_clock: if pawn || ply.is_capture {
            0
        } else if pos.ply_clock == 255 {
            255
        } else {
            (pos.ply_clock + 1) as u8
        },
        en_passant_targ: if pawn && abs(rank_of(to) - rank_of(from)) == 2 {
            Some(single((from + to) / 2))
        } else {
            None
        },
        check: None,
        last_ply: Some(ply),
    }
}

proof fn lemma_has_single_square(s: int)
    requires
        0 <= s < 64,
    ensures
        is_square(s),
{
}

proof fn lemma_decimal_round(n: nat)
    ensures
        decimal_text(n).len() > 0,
        all_digits(decimal_text(n)),
        decimal_value(decimal_text(n)) == n,
        no_space(decimal_text(n)),
    decreases n,
{
    let t = decimal_text(n);
    if n < 10 {
        assert(t.drop_last() =~= Seq::<char>::empty());
        assert(t[0] == dec_char(n as int));
        assert(t.last() == t[0]);
        assert(decimal_value(t.drop_last()) == 0);
        assert(digit_value(dec_char(n as int)) == n);
    } else {
        lemma_decimal_round(n / 10);
        let u = decimal_text(n / 10);
        let d = dec_char((n % 10) as int);
        assert(t == u + seq![d]);
        assert(t.drop_last() =~= u);
        assert(t.last() == d);
        assert(digit_value(d) == n % 10);
        assert((n / 10) * 10 + n % 10 == n) by (nonlinear_arith);
        assert forall|i: int| 0 <= i < t.len() implies digit_value(#[trigger] t[i]) >= 0 by {
            if i < u.len() {
                assert(t[i] == u[i]);
            }
        }
        lemma_no_space_concat(u, seq![d]);
    }
}

proof fn lemma_square_name_round(s: int)
    requires
        is_square(s),
    ensures
        parse_square(square_name(s)) == Some(s),
        no_space(square_name(s)),
        square_name(s) != seq!['-'],
{
    lemma_square_parts(s);
    assert(square_name(s)[0] != '-');
}

proof fn lemma_castling_value(c: u8)
    by (bit_vector)
    requires
        c & 0x0F == 0,
    ensures
        ({
            let v1: u8 = if c & 0x80 != 0 { 0u8 | 0x80u8 } else { 0u8 };
            let v2: u8 = if c & 0x40 != 0 { v1 | 0x40u8 } else { v1 };
            let v3: u8 = if c & 0x20 != 0 { v2 | 0x20u8 } else { v2 };
            let v4: u8 = if c & 0x10 != 0 { v3 | 0x10u8 } else { v3 };
            v4 == c
        }),
        (c & 0x80 == 0 && c & 0x40 == 0 && c & 0x20 == 0 && c & 0x10 == 0) ==> c == 0,
{
}

proof fn lemma_castling_round(c: u8)
    requires
        c & 0x0F == 0,
    ensures
        castling_rights(castling_text(c)) == Some(c),
        no_space(castling_text(c)),
{
    let e = Seq::<char>::empty();
    let t1 = if c & 0x80 != 0 { seq!['K'] } else { e };
    let t2 = t1 + if c & 0x40 != 0 { seq!['Q'] } else { e };
    let t3 = t2 + if c & 0x20 != 0 { seq!['k'] } else { e };
    let t4 = t3 + if c & 0x10 != 0 { seq!['q'] } else { e };
    let v1: u8 = if c & 0x80 != 0 { 0u8 | 0x80u8 } else { 0u8 };
    let v2: u8 = if c & 0x40 != 0 { v1 | 0x40u8 } else { v1 };
    let v3: u8 = if c & 0x20 != 0 { v2 | 0x20u8 } else { v2 };
    let v4: u8 = if c & 0x10 != 0 { v3 | 0x10u8 } else { v3 };
    lemma_castling_value(c);
    assert(castling_letters(e) == Some(0u8));
    if c & 0x80 != 0 {
        assert(t1 =~= e.push('K'));
        lemma_castling_push(e, 'K');
    }
    assert(castling_letters(t1) == Some(v1));
    if c & 0x40 != 0 {
        assert(t2 =~= t1.push('Q'));
        lemma_castling_push(t1, 'Q');
    } else {
        assert(t2 =~= t1);
    }
    assert(castling_letters(t2) == Some(v2));
    if c & 0x20 != 0 {
        assert(t3 =~= t2.push('k'));
        lemma_castling_push(t2, 'k');
    } else {
        assert(t3 =~= t2);
    }
    assert(castling_letters(t3) == Some(v3));
    if c & 0x10 != 0 {
        assert(t4 =~= t3.push('q'));
        lemma_castling_push(t3, 'q');
    } else {
        assert(t4 =~= t3);
    }
    assert(castling_letters(t4) == Some(v4));
    assert forall|i: int| 0 <= i < t4.len() implies (#[trigger] t4[i]) != ' ' && t4[i] != '-' by {
        assert(t4[i] == 'K' || t4[i] == 'Q' || t4[i] == 'k' || t4[i] == 'q');
    }
    if t4.len() != 0 {
        assert(t4 != seq!['-']) by {
            assert(t4[0] != '-');
        }
    }
}

/// FEN round trip: the FEN of a position decodes back to that position, with
/// the full-move number and the ply count it implies. The board's bitboards
/// are disjoint, only the four castling rights bits are used, and check and
/// last ply are unset, as FEN does not record them.
pub proof fn lemma_fen_round_trip(pos: Position, mov: u16)
    requires
        pos.board.wf(),
        pos.wf(),
        pos.castling & 0x0F == 0,
        pos.check.is_none(),
        pos.last_ply.is_none(),
        0 <= ply_count(mov as int, pos.was_blacks_move) <= 65535,
    ensures
        decode_fen(encode_fen(pos, mov)) == Ok::<(Position, u16, u16), FenError>(
            (pos, mov, ply_count(mov as int, pos.was_blacks_move) as u16),
        ),
{
    let p = pos.board.placement_text();
    let a = if pos.was_blacks_move { seq!['w'] } else { seq!['b'] };
    let k = castling_text(pos.castling);
    let e = en_passant_text(pos.en_passant_targ);
    let h = decimal_text(pos.ply_clock as nat);
    let m = decimal_text(mov as nat);
    lemma_placement_no_space(pos.board, 7);
    lemma_castling_round(pos.castling);
    lemma_decimal_round(pos.ply_clock as nat);
    lemma_decimal_round(mov as nat);
    match pos.en_passant_targ {
        Some(x) => {
            let s = choose|s: int| is_square(s) && x == single(s);
            lemma_square_name_round(s);
            assert(en_passant_field(e) == Some(Some(x)));
        },
        None => {
            assert(en_passant_field(e) == Some(None::<u64>));
        },
    }
    assert(no_space(e));
    assert(no_space(a));
    lemma_split_one(p);
    let x1 = p + seq![' '] + a;
    let x2 = x1 + seq![' '] + k;
    let x3 = x2 + seq![' '] + e;
    let x4 = x3 + seq![' '] + h;
    let x5 = x4 + seq![' '] + m;
    lemma_split_push(p, a);
    lemma_split_push(x1, k);
    lemma_split_push(x2, e);
    lemma_split_push(x3, h);
    lemma_split_push(x4, m);
    assert(x5 == encode_fen(pos, mov));
    let f = split_fields(x5);
    assert(f =~= seq![p, a, k, e, h, m]);
    lemma_placement_decodes_back(pos.board);
    assert(parse_number(h, 255) == Some(pos.ply_clock as int));
    assert(parse_number(m, 65535) == Some(mov as int));
}

fn dec_digit(d: u64) -> (c: char)
    requires
        d < 10,
    ensures
        c == dec_char(d as int),
{
    match d {
        0 => '0',
        1 => '1',
        2 => '2',
        3 => '3',
        4 => '4',
        5 => '5',
        6 => '6',
        7 => '7',
        8 => '8',
        _ => '9',
    }
}

/// Appends `n` in decimal.
fn push_decimal(out: &mut String, n: u64)
    ensures
        final(out)@ == old(out)@ + decimal_text(n as nat),
    decreases n,
{
    let ghost start = out@;
    if n >= 10 {
        push_decimal(out, n / 10);
    }
    push_char(out, dec_digit(n % 10));
    proof {
        if n >= 10 {
            assert(out@ =~= start + decimal_text(n as nat));
        } else {
            assert(out@ =~= start + decimal_text(n as nat));
        }
    }
}

/// Appends the castling field.
fn push_castling(out: &mut String, c: u8)
    ensures
        final(out)@ == old(out)@ + castling_text(c),
{
    let ghost start = out@;
    let mut any = false;
    if c & 0x80 != 0 {
        push_char(out, 'K');
        any = true;
    }
    if c & 0x40 != 0 {
        push_char(out, 'Q');
        any = true;
    }
    if c & 0x20 != 0 {
        push_char(out, 'k');
        any = true;
    }
    if c & 0x10 != 0 {
        push_char(out, 'q');
        any = true;
    }
    let ghost t = (if c & 0x80 != 0 {
        seq!['K']
    } else {
        Seq::empty()
    }) + (if c & 0x40 != 0 {
        seq!['Q']
    } else {
        Seq::empty()
    }) + (if c & 0x20 != 0 {
        seq!['k']
    } else {
        Seq::empty()
    }) + (if c & 0x10 != 0 {
        seq!['q']
    } else {
        Seq::empty()
    });
    proof {
        assert(out@ =~= start + t);
        assert(any == (t.len() != 0));
    }
    if !any {
        push_char(out, '-');
        proof {
            assert(out@ =~= start + seq!['-']);
        }
    }
}

impl Game {
    /// The history is not empty and its last position is well formed.
    pub open spec fn wf(&self) -> bool {
        self.history@.len() > 0 && self.history@.last().wf()
    }

    /// A game at the initial position, move 1, White to move.
    pub fn new() -> (r: Self)
        ensures
            r.history@ == seq![initial_position()],
            r.mov == 1,
            r.ply == 1,
            r.state.is_none(),
            r.wf(),
    {
        let board = Board {
            w_p_bb: RANK_2,
            w_r_bb: 0x81,
            w_n_bb: 0x42,
            w_b_bb: 0x24,
            w_q_bb: 0x08,
            w_k_bb: 0x10,
            b_p_bb: RANK_7,
            b_r_bb: 0x8100000000000000,
            b_n_bb: 0x4200000000000000,
            b_b_bb: 0x2400000000000000,
            b_q_bb: 0x0800000000000000,
            b_k_bb: 0x1000000000000000,
        };
        let pos = Position {
            board,
            was_blacks_move: true,
            castling: 0xF0,
            ply_clock: 0,
            en_passant_targ: None,
            check: None,
            last_ply: None,
        };
        let mut history: Vec<Position> = Vec::new();
        history.push(pos);
        proof {
            assert(history@ =~= seq![initial_position()]);
        }
        Game { history, ply: 1, mov: 1, state: None }
    }

    /// Decodes a FEN string into a game whose history holds the one position described.
    pub fn try_from_fen(fen: &str) -> (r: Result<Self, FenError>)
        ensures
            match r {
                Ok(g) => decode_fen(fen@) == Ok::<(Position, u16, u16), FenError>(
                    (g.history@[0], g.mov, g.ply),
                ) && g.history@.len() == 1 && g.state.is_none(),
                Err(e) => decode_fen(fen@) == Err::<(Position, u16, u16), FenError>(e),
            },
    {
        parse_fen(fen)
    }

    /// The current position.
    pub fn last_position(&self) -> (r: &Position)
        requires
            self.history@.len() > 0,
        ensures
            *r == self.history@.last(),
    {
        &self.history[self.history.len() - 1]
    }

    /// Records a ply that has been checked by the caller: the position after
    /// it is appended to the history, the ply count grows by one and the move
    /// number after each black move.
    pub fn update(&mut self, ply: Ply)
        requires
            old(self).wf(),
            old(self).ply < 65535,
            old(self).mov < 65535,
        ensures
            final(self).history@ == old(self).history@.push(after_ply(old(self).history@.last(), ply)),
            final(self).ply == old(self).ply + 1,
            final(self).mov == old(self).mov + if ply.mov.player == Colour::Black {
                1int
            } else {
                0int
            },
            final(self).state == old(self).state,
            final(self).wf(),
    {
        let pos = *self.last_position();
        let from = ply.mov.from_sq.idx();
        let to = ply.mov.to_sq.idx();
        let from_bb = ply.mov.from_sq.to_bb();
        let to_bb = ply.mov.to_sq.to_bb();
        let mut board = pos.board;
        board.remove_bits(from_bb | to_bb);
        let placed = match ply.promotion {
            Some(PromotablePiece::Queen) => Piece::Queen,
            Some(PromotablePiece::Rook) => Piece::Rook,
            Some(PromotablePiece::Bishop) => Piece::Bishop,
            Some(PromotablePiece::Knight) => Piece::Knight,
            None => ply.mov.piece,
        };
        board.add_piece(placed, ply.mov.player, to_bb);
        let pawn = ply.mov.piece == Piece::Pawn;
        let king: u8 = if ply.mov.piece == Piece::King {
            match ply.mov.player {
                Colour::White => 0xC0,
                Colour::Black => 0x30,
            }
        } else {
            0
        };
        let a1: u8 = if from == 0 || to == 0 { 0x40 } else { 0 };
        let h1: u8 = if from == 7 || to == 7 { 0x80 } else { 0 };
        let a8: u8 = if from == 56 || to == 56 { 0x10 } else { 0 };
        let h8: u8 = if from == 63 || to == 63 { 0x20 } else { 0 };
        let castling = pos.castling & !(king | a1 | h1 | a8 | h8);
        let ply_clock: u8 = if pawn || ply.is_capture {
            0
        } else if pos.ply_clock == 255 {
            255
        } else {
            pos.ply_clock + 1
        };
        let double_step = pawn && (from / 8 == to / 8 + 2 || to / 8 == from / 8 + 2);
        let en_passant_targ = if double_step {
            let mid: u64 = ((from as u64) + (to as u64)) / 2;
            proof {
                assert(is_square(mid as int));
            }
            Some(1u64 << mid)
        } else {
            None
        };
        let next = Position {
            board,
            was_blacks_move: ply.mov.player == Colour::Black,
            castling,
            ply_clock,
            en_passant_targ,
            check: None,
            last_ply: Some(ply),
        };
        proof {
            assert(next == after_ply(pos, ply));
        }
        self.history.push(next);
        if ply.mov.player == Colour::Black {
            self.mov = self.mov + 1;
        }
        self.ply = self.ply + 1;
    }

    /// The ply a movement makes in the current position, if the piece named
    /// stands on the starting square and can capture on or move to the
    /// destination. Pins and checks are not looked at; no promotion is chosen.
    pub fn validate_movement(&self, inp: Movement) -> (r: Option<Ply>)
        requires
            self.history@.len() > 0,
        ensures
            ({
                let b = self.history@.last().board;
                let s = inp.from_sq.index();
                let t = inp.to_sq.index();
                r == if b.cell(s) == Some((inp.piece, inp.player)) && (b.capture_target(s, t)
                    || b.quiet_target(s, t)) {
                    Some(
                        Ply {
                            mov: inp,
                            is_capture: b.occupied_by(inp.player.other(), t),
                            promotion: None,
                        },
                    )
                } else {
                    None
                }
            }),
    {
        let pos = self.last_position();
        let from = inp.from_sq.as_bb();
        proof {
            lemma_has_single_square(inp.from_sq.index());
        }
        match pos.board.piece_at(from) {
            Some((p, c)) => {
                if p != inp.piece || c != inp.player {
                    return None;
                }
            },
            None => {
                return None;
            },
        }
        let (att, quiet) = pos.board.possible_moves(inp.from_sq);
        let reach = att | quiet;
        proof {
            lemma_meets_single(reach, inp.to_sq.index());
        }
        proof {
            let b = pos.board;
            assert(b.cell(inp.from_sq.index()) == Some((inp.piece, inp.player)));
            assert(has_sq(reach, inp.to_sq.index()) == (b.capture_target(inp.from_sq.index(), inp.to_sq.index()) || b.quiet_target(inp.from_sq.index(), inp.to_sq.index())));
        }
        if reach & inp.to_sq.as_bb() != 0 {
            Some(Ply { mov: inp, is_capture: pos.move_is_capture(inp), promotion: None })
        } else {
            None
        }
    }

    /// The FEN of the current position.
    pub fn as_fen(&self) -> (r: String)
        requires
            self.wf(),
        ensures
            r@ == encode_fen(self.history@.last(), self.mov),
    {
        let pos = self.last_position();
        let mut fen = pos.board.stringify();
        let ghost placement = fen@;
        push_char(&mut fen, ' ');
        if pos.was_blacks_move {
            push_char(&mut fen, 'w');
        } else {
            push_char(&mut fen, 'b');
        }
        push_char(&mut fen, ' ');
        let ghost before_castling = fen@;
        push_castling(&mut fen, pos.castling);
        push_char(&mut fen, ' ');
        let ghost before_ep = fen@;
        match pos.en_passant_targ {
            Some(x) => {
                let sq = Square::bb_to_str(x);
                fen.append(sq.as_str());
            },
            None => {
                push_char(&mut fen, '-');
            },
        }
        proof {
            assert(fen@ =~= before_ep + en_passant_text(pos.en_passant_targ));
        }
        push_char(&mut fen, ' ');
        let ghost before_clock = fen@;
        push_decimal(&mut fen, pos.ply_clock as u64);
        push_char(&mut fen, ' ');
        let ghost before_mov = fen@;
        push_decimal(&mut fen, self.mov as u64);
        proof {
            assert(fen@ =~= encode_fen(*pos, self.mov));
        }
        fen
    }
}

} // verus!
