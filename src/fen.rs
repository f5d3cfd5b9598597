//! The FEN text format: six fields separated by single spaces.
//!
//! Decoding is strict: a wrong number of fields, an unknown placement or
//! castling character, a malformed en-passant square or a clock that is not an
//! unsigned number each give their own error.
use vstd::prelude::*;
use crate::bitboard::{
    is_square, file_of, rank_of, has_sq, single, lemma_square_parts, lemma_has_single,
    lemma_bitboard_ext, group_bitboard,
};
use crate::board::{Board, piece_char, digit_char, run_text};
use crate::game::Game;
use crate::ply::{Colour, Piece};
use crate::position::Position;
use crate::square::parse_square;

verus! {

broadcast use group_bitboard;

/// Why a FEN string was refused.
#[derive(Clone, Copy, Debug, PartialEq, Eq, Structural)]
pub enum FenError {
    /// Not exactly six space-separated fields.
    FieldCount,
    /// The placement field is not eight ranks of eight squares, or holds an unknown character.
    Placement,
    /// The active colour is neither `w` nor `b`.
    ActiveColour,
    /// The castling field is neither `-` nor letters from `KQkq`.
    Castling,
    /// The en-passant field is neither `-` nor a square.
    EnPassant,
    /// The half-move clock is not a number from 0 to 255.
    HalfMoveClock,
    /// The full-move number is not a number that gives a ply count from 0 to 65535.
    FullMoveNumber,
}

/// `s` cut at every space; `n` spaces give `n + 1` fields.
pub open spec fn split_fields(s: Seq<char>) -> Seq<Seq<char>>
    decreases s.len(),
{
    if s.len() == 0 {
        seq![Seq::empty()]
    } else {
        let prev = split_fields(s.drop_last());
        if s.last() == ' ' {
            prev.push(Seq::empty())
        } else {
            prev.update(prev.len() - 1, prev.last().push(s.last()))
        }
    }
}

/// The number of empty squares a placement digit stands for, 0 for any other character.
pub open spec fn run_length(c: char) -> int {
    if c == '1' { 1 } else if c == '2' { 2 } else if c == '3' { 3 } else if c == '4' { 4 }
    else if c == '5' { 5 } else if c == '6' { 6 } else if c == '7' { 7 } else if c == '8' { 8 }
    else { 0 }
}

/// The piece a placement letter stands for.
pub open spec fn piece_of_char(c: char) -> Option<(Piece, Colour)> {
    if c == 'P' { Some((Piece::Pawn, Colour::White)) }
    else if c == 'R' { Some((Piece::Rook, Colour::White)) }
    else if c == 'N' { Some((Piece::Knight, Colour::White)) }
    else if c == 'B' { Some((Piece::Bishop, Colour::White)) }
    else if c == 'Q' { Some((Piece::Queen, Colour::White)) }
    else if c == 'K' { Some((Piece::King, Colour::White)) }
    else if c == 'p' { Some((Piece::Pawn, Colour::Black)) }
    else if c == 'r' { Some((Piece::Rook, Colour::Black)) }
    else if c == 'n' { Some((Piece::Knight, Colour::Black)) }
    else if c == 'b' { Some((Piece::Bishop, Colour::Black)) }
    else if c == 'q' { Some((Piece::Queen, Colour::Black)) }
    else if c == 'k' { Some((Piece::King, Colour::Black)) }
    else { None }
}

/// One character of the placement field read in state (rank, file, board):
/// `/` closes a full rank, a digit skips empty squares, a letter places a piece.
pub open spec fn placement_step(st: (int, int, Board), c: char) -> Option<(int, int, Board)> {
    let (rank, file, board) = st;
    if c == '/' {
        if file == 8 && rank > 0 {
            Some((rank - 1, 0, board))
        } else {
            None
        }
    } else if run_length(c) > 0 {
        if file + run_length(c) <= 8 {
            Some((rank, file + run_length(c), board))
        } else {
            None
        }
    } else {
        match piece_of_char(c) {
            Some((p, col)) => if file < 8 {
                Some((rank, file + 1, board.with_bits(p, col, single(rank * 8 + file))))
            } else {
                None
            },
            None => None,
        }
    }
}

/// The state after reading all of `s` from state `st`.
pub open spec fn placement_scan_from(st: Option<(int, int, Board)>, s: Seq<char>) -> Option<
    (int, int, Board),
>
    decreases s.len(),
{
    if s.len() == 0 {
        st
    } else {
        match placement_scan_from(st, s.drop_last()) {
            Some(x) => placement_step(x, s.last()),
            None => None,
        }
    }
}

/// The state after reading all of `s`, from rank 8, file a, on an empty board.
pub open spec fn placement_scan(s: Seq<char>) -> Option<(int, int, Board)> {
    placement_scan_from(Some((7, 0, Board::empty_board())), s)
}

/// The board that a placement field describes, if it describes exactly eight full ranks.
pub open spec fn placement_board(s: Seq<char>) -> Option<Board> {
    match placement_scan(s) {
        Some((rank, file, board)) => if rank == 0 && file == 8 {
            Some(board)
        } else {
            None
        },
        None => None,
    }
}

/// The castling bit of a castling letter, 0 for any other character.
pub open spec fn castling_bit(c: char) -> u8 {
    if c == 'K' { 0x80 } else if c == 'Q' { 0x40 } else if c == 'k' { 0x20 } else if c == 'q' { 0x10 }
    else { 0 }
}

pub open spec fn castling_letters(s: Seq<char>) -> Option<u8>
    decreases s.len(),
{
    if s.len() == 0 {
        Some(0u8)
    } else {
        match castling_letters(s.drop_last()) {
            Some(v) => if castling_bit(s.last()) != 0 {
                Some(v | castling_bit(s.last()))
            } else {
                None
            },
            None => None,
        }
    }
}

/// The castling rights a castling field gives: `-` for none, else letters from `KQkq`.
pub open spec fn castling_rights(s: Seq<char>) -> Option<u8> {
    if s == seq!['-'] {
        Some(0u8)
    } else if s.len() == 0 {
        None
    } else {
        castling_letters(s)
    }
}

/// The en-passant target a field gives: `Some(None)` for `-`, `None` when malformed.
pub open spec fn en_passant_field(s: Seq<char>) -> Option<Option<u64>> {
    if s == seq!['-'] {
        Some(None)
    } else {
        match parse_square(s) {
            Some(sq) => Some(Some(single(sq))),
            None => None,
        }
    }
}

/// The value of a decimal digit, -1 for any other character.
pub open spec fn digit_value(c: char) -> int {
    if c == '0' { 0 } else if c == '1' { 1 } else if c == '2' { 2 } else if c == '3' { 3 }
    else if c == '4' { 4 } else if c == '5' { 5 } else if c == '6' { 6 } else if c == '7' { 7 }
    else if c == '8' { 8 } else if c == '9' { 9 } else { -1 }
}

pub open spec fn all_digits(s: Seq<char>) -> bool {
    forall|i: int| 0 <= i < s.len() ==> digit_value(#[trigger] s[i]) >= 0
}

pub open spec fn decimal_value(s: Seq<char>) -> int
    decreases s.len(),
{
    if s.len() == 0 {
        0
    } else {
        decimal_value(s.drop_last()) * 10 + digit_value(s.last())
    }
}

/// The unsigned number a field spells in decimal, if it is one no larger than `max`.
pub open spec fn parse_number(s: Seq<char>, max: int) -> Option<int> {
    if s.len() > 0 && all_digits(s) && decimal_value(s) <= max {
        Some(decimal_value(s))
    } else {
        None
    }
}

/// The ply count of a full-move number: two per move, one less with White to move.
pub open spec fn ply_count(mov: int, white_to_move: bool) -> int {
    mov * 2 - if white_to_move {
        1int
    } else {
        0int
    }
}

/// What a FEN string decodes to: the position, the full-move number and the ply count.
pub open spec fn decode_fen(s: Seq<char>) -> Result<(Position, u16, u16), FenError> {
    let f = split_fields(s);
    if f.len() != 6 {
        Err(FenError::FieldCount)
    } else {
        match placement_board(f[0]) {
            None => Err(FenError::Placement),
            Some(board) => if f[1] != seq!['w'] && f[1] != seq!['b'] {
                Err(FenError::ActiveColour)
            } else {
                match castling_rights(f[2]) {
                    None => Err(FenError::Castling),
                    Some(castling) => match en_passant_field(f[3]) {
                        None => Err(FenError::EnPassant),
                        Some(ep) => match parse_number(f[4], 255) {
                            None => Err(FenError::HalfMoveClock),
                            Some(clock) => match parse_number(f[5], 65535) {
                                None => Err(FenError::FullMoveNumber),
                                Some(mov) => {
                                    let white = f[1] == seq!['w'];
                                    let ply = ply_count(mov, white);
                                    if ply < 0 || ply > 65535 {
                                        Err(FenError::FullMoveNumber)
                                    } else {
                                        Ok(
                                            (
                                                Position {
                                                    board,
                                                    was_blacks_move: white,
                                                    castling,
                                                    ply_clock: clock as u8,
                                                    en_passant_targ: ep,
                                                    check: None,
                                                    last_ply: None,
                                                },
                                                mov as u16,
                                                ply as u16,
                                            ),
                                        )
                                    }
                                },
                            },
                        },
                    },
                }
            },
        }
    }
}

proof fn lemma_split_nonempty(s: Seq<char>)
    ensures
        split_fields(s).len() >= 1,
    decreases s.len(),
{
    if s.len() > 0 {
        lemma_split_nonempty(s.drop_last());
    }
}

/// `s` cut at every space.
fn split_spaces(s: &Vec<char>) -> (r: Vec<Vec<char>>)
    ensures
        r.deep_view() == split_fields(s@),
{
    let mut done: Vec<Vec<char>> = Vec::new();
    let mut cur: Vec<char> = Vec::new();
    let mut i: usize = 0;
    proof {
        assert(s@.take(0) =~= Seq::<char>::empty());
        assert(done.deep_view().push(cur@) =~= split_fields(s@.take(0)));
    }
    while i < s.len()
        invariant
            i <= s.len(),
            done.deep_view().push(cur@) == split_fields(s@.take(i as int)),
        decreases s.len() - i,
    {
        let c = s[i];
        proof {
            assert(s@.take(i + 1).drop_last() =~= s@.take(i as int));
            lemma_split_nonempty(s@.take(i as int));
        }
        if c == ' ' {
            let ghost old_done = done.deep_view();
            let ghost old_cur = cur@;
            proof {
                assert(cur.deep_view() =~= cur@);
            }
            done.push(cur);
            cur = Vec::new();
            proof {
                assert(done.deep_view() =~= old_done.push(old_cur));
                assert(done.deep_view().push(cur@) =~= split_fields(s@.take(i + 1)));
            }
        } else {
            cur.push(c);
            proof {
                assert(done.deep_view().push(cur@) =~= split_fields(s@.take(i + 1)));
            }
        }
        i = i + 1;
    }
    let ghost old_done = done.deep_view();
    let ghost old_cur = cur@;
    proof {
        assert(cur.deep_view() =~= cur@);
    }
    done.push(cur);
    proof {
        assert(s@.take(s@.len() as int) =~= s@);
        assert(done.deep_view() =~= old_done.push(old_cur));
    }
    done
}

proof fn lemma_placement_stuck(s: Seq<char>, i: int)
    requires
        0 <= i <= s.len(),
        placement_scan(s.take(i)).is_none(),
    ensures
        placement_scan(s).is_none(),
    decreases s.len() - i,
{
    if i == s.len() {
        assert(s.take(i) =~= s);
    } else {
        assert(s.take(i + 1).drop_last() =~= s.take(i));
        lemma_placement_stuck(s, i + 1);
    }
}

proof fn lemma_castling_stuck(s: Seq<char>, i: int)
    requires
        0 <= i <= s.len(),
        castling_letters(s.take(i)).is_none(),
    ensures
        castling_letters(s).is_none(),
    decreases s.len() - i,
{
    if i == s.len() {
        assert(s.take(i) =~= s);
    } else {
        assert(s.take(i + 1).drop_last() =~= s.take(i));
        lemma_castling_stuck(s, i + 1);
    }
}

proof fn lemma_decimal_nonneg(s: Seq<char>)
    requires
        all_digits(s),
    ensures
        decimal_value(s) >= 0,
    decreases s.len(),
{
    if s.len() > 0 {
        assert(all_digits(s.drop_last())) by {
            assert forall|i: int| 0 <= i < s.drop_last().len() implies digit_value(
                #[trigger] s.drop_last()[i],
            ) >= 0 by {
                assert(s.drop_last()[i] == s[i]);
            }
        }
        lemma_decimal_nonneg(s.drop_last());
        assert(digit_value(s[s.len() - 1]) >= 0);
    }
}

/// A prefix of a run of digits is worth no more than the whole run.
proof fn lemma_decimal_prefix(s: Seq<char>, i: int)
    requires
        all_digits(s),
        0 <= i <= s.len(),
    ensures
        decimal_value(s.take(i)) <= decimal_value(s),
    decreases s.len() - i,
{
    if i == s.len() {
        assert(s.take(i) =~= s);
    } else {
        let t = s.take(i + 1);
        assert(t.drop_last() =~= s.take(i));
        assert(all_digits(s.take(i))) by {
            assert forall|j: int| 0 <= j < s.take(i).len() implies digit_value(
                #[trigger] s.take(i)[j],
            ) >= 0 by {
                assert(s.take(i)[j] == s[j]);
            }
        }
        lemma_decimal_nonneg(s.take(i));
        assert(digit_value(t.last()) >= 0) by {
            assert(t.last() == s[i]);
        }
        lemma_decimal_prefix(s, i + 1);
    }
}

fn run_len_of(c: char) -> (r: u8)
    ensures
        r == run_length(c),
{
    match c {
        '1' => 1,
        '2' => 2,
        '3' => 3,
        '4' => 4,
        '5' => 5,
        '6' => 6,
        '7' => 7,
        '8' => 8,
        _ => 0,
    }
}

fn piece_from_char(c: char) -> (r: Option<(Piece, Colour)>)
    ensures
        r == piece_of_char(c),
{
    match c {
        'P' => Some((Piece::Pawn, Colour::White)),
        'R' => Some((Piece::Rook, Colour::White)),
        'N' => Some((Piece::Knight, Colour::White)),
        'B' => Some((Piece::Bishop, Colour::White)),
        'Q' => Some((Piece::Queen, Colour::White)),
        'K' => Some((Piece::King, Colour::White)),
        'p' => Some((Piece::Pawn, Colour::Black)),
        'r' => Some((Piece::Rook, Colour::Black)),
        'n' => Some((Piece::Knight, Colour::Black)),
        'b' => Some((Piece::Bishop, Colour::Black)),
        'q' => Some((Piece::Queen, Colour::Black)),
        'k' => Some((Piece::King, Colour::Black)),
        _ => None,
    }
}

fn castling_bit_of(c: char) -> (r: u8)
    ensures
        r == castling_bit(c),
{
    match c {
        'K' => 0x80,
        'Q' => 0x40,
        'k' => 0x20,
        'q' => 0x10,
        _ => 0,
    }
}

fn digit_of(c: char) -> (r: i8)
    ensures
        r == digit_value(c),
{
    match c {
        '0' => 0,
        '1' => 1,
        '2' => 2,
        '3' => 3,
        '4' => 4,
        '5' => 5,
        '6' => 6,
        '7' => 7,
        '8' => 8,
        '9' => 9,
        _ => -1,
    }
}

/// The board of a placement field.
pub fn parse_placement(field: &Vec<char>) -> (r: Option<Board>)
    ensures
        r == placement_board(field@),
{
    let mut rank: u8 = 7;
    let mut file: u8 = 0;
    let mut board = Board::new();
    let mut i: usize = 0;
    proof {
        assert(field@.take(0) =~= Seq::<char>::empty());
    }
    while i < field.len()
        invariant
            i <= field.len(),
            rank <= 7,
            file <= 8,
            placement_scan(field@.take(i as int)) == Some((rank as int, file as int, board)),
        decreases field.len() - i,
    {
        let c = field[i];
        proof {
            assert(field@.take(i + 1).drop_last() =~= field@.take(i as int));
            assert(field@.take(i + 1).last() == c);
        }
        if c == '/' {
            if file == 8 && rank > 0 {
                rank = rank - 1;
                file = 0;
            } else {
                proof {
                    lemma_placement_stuck(field@, i + 1);
                }
                return None;
            }
        } else {
            let n = run_len_of(c);
            if n > 0 {
                if file + n <= 8 {
                    file = file + n;
                } else {
                    proof {
                        lemma_placement_stuck(field@, i + 1);
                    }
                    return None;
                }
            } else {
                match piece_from_char(c) {
                    Some((p, col)) => {
                        if file < 8 {
                            let sq: u64 = (rank as u64) * 8 + (file as u64);
                            board.add_piece(p, col, 1u64 << sq);
                            file = file + 1;
                        } else {
                            proof {
                                lemma_placement_stuck(field@, i + 1);
                            }
                            return None;
                        }
                    },
                    None => {
                        proof {
                            lemma_placement_stuck(field@, i + 1);
                        }
                        return None;
                    },
                }
            }
        }
        i = i + 1;
    }
    proof {
        assert(field@.take(field@.len() as int) =~= field@);
    }
    if rank == 0 && file == 8 {
        Some(board)
    } else {
        None
    }
}

/// The castling rights of a castling field.
pub fn parse_castling(field: &Vec<char>) -> (r: Option<u8>)
    ensures
        r == castling_rights(field@),
{
    if field.len() == 1 && field[0] == '-' {
        proof {
            assert(field@ =~= seq!['-']);
        }
        return Some(0);
    }
    proof {
        if field@ == seq!['-'] {
            assert(field@[0] == '-');
        }
    }
    if field.len() == 0 {
        return None;
    }
    let mut v: u8 = 0;
    let mut i: usize = 0;
    proof {
        assert(field@.take(0) =~= Seq::<char>::empty());
    }
    while i < field.len()
        invariant
            i <= field.len(),
            field@ != seq!['-'],
            field.len() > 0,
            castling_letters(field@.take(i as int)) == Some(v),
        decreases field.len() - i,
    {
        let c = field[i];
        proof {
            assert(field@.take(i + 1).drop_last() =~= field@.take(i as int));
            assert(field@.take(i + 1).last() == c);
        }
        let b = castling_bit_of(c);
        if b == 0 {
            proof {
                lemma_castling_stuck(field@, i + 1);
            }
            return None;
        }
        v = v | b;
        i = i + 1;
    }
    proof {
        assert(field@.take(field@.len() as int) =~= field@);
    }
    Some(v)
}

/// The en-passant target of an en-passant field.
pub fn parse_en_passant(field: &Vec<char>) -> (r: Option<Option<u64>>)
    ensures
        r == en_passant_field(field@),
{
    if field.len() == 1 && field[0] == '-' {
        proof {
            assert(field@ =~= seq!['-']);
        }
        return Some(None);
    }
    proof {
        if field@ == seq!['-'] {
            assert(field@[0] == '-');
        }
    }
    if field.len() != 2 {
        return None;
    }
    let f = crate::square::file_from_char(field[0]);
    let rk = crate::square::rank_from_char(field[1]);
    if f < 0 || rk < 0 {
        return None;
    }
    let sq: u64 = (rk as u64) * 8 + (f as u64);
    Some(Some(1u64 << sq))
}

/// The value of a decimal field, if it is a number no larger than `max`.
pub fn parse_decimal(field: &Vec<char>, max: u64) -> (r: Option<u64>)
    requires
        max <= 65535,
    ensures
        r == match parse_number(field@, max as int) {
            Some(v) => Some(v as u64),
            None => None::<u64>,
        },
        match r {
            Some(v) => v <= max && v as int == decimal_value(field@),
            None => true,
        },
{
    if field.len() == 0 {
        return None;
    }
    let mut acc: u64 = 0;
    let mut i: usize = 0;
    proof {
        assert(field@.take(0) =~= Seq::<char>::empty());
    }
    while i < field.len()
        invariant
            i <= field.len(),
            field.len() > 0,
            max <= 65535,
            acc <= max,
            acc == decimal_value(field@.take(i as int)),
            all_digits(field@.take(i as int)),
        decreases field.len() - i,
    {
        let c = field[i];
        proof {
            assert(field@.take(i + 1).drop_last() =~= field@.take(i as int));
            assert(field@.take(i + 1).last() == c);
        }
        let d = digit_of(c);
        if d < 0 {
            proof {
                assert(!all_digits(field@));
            }
            return None;
        }
        let next = acc * 10 + (d as u64);
        if next > max {
            proof {
                if all_digits(field@) {
                    lemma_decimal_prefix(field@, i + 1);
                }
            }
            return None;
        }
        acc = next;
        i = i + 1;
        proof {
            assert forall|j: int| 0 <= j < field@.take(i as int).len() implies digit_value(
                #[trigger] field@.take(i as int)[j],
            ) >= 0 by {
                if j < i - 1 {
                    assert(field@.take(i as int)[j] == field@.take(i - 1)[j]);
                }
            }
        }
    }
    proof {
        assert(field@.take(field@.len() as int) =~= field@);
    }
    Some(acc)
}

/// Decodes a FEN string into a game whose history holds the one position described.
pub fn parse_fen(fen: &str) -> (r: Result<Game, FenError>)
    ensures
        match r {
            Ok(g) => decode_fen(fen@) == Ok::<(Position, u16, u16), FenError>(
                (g.history@[0], g.mov, g.ply),
            ) && g.history@.len() == 1 && g.state.is_none(),
            Err(e) => decode_fen(fen@) == Err::<(Position, u16, u16), FenError>(e),
        },
{
    let chars = crate::text::chars_of(fen);
    let f = split_spaces(&chars);
    if f.len() != 6 {
        return Err(FenError::FieldCount);
    }
    proof {
        assert forall|k: int| 0 <= k < 6 implies #[trigger] split_fields(fen@)[k] == f@[k]@ by {
            assert(f@[k].deep_view() =~= f@[k]@);
        }
    }
    let board = match parse_placement(&f[0]) {
        Some(b) => b,
        None => return Err(FenError::Placement),
    };
    let white = if f[1].len() == 1 && f[1][0] == 'w' {
        proof {
            assert(f@[1]@ =~= seq!['w']);
        }
        true
    } else if f[1].len() == 1 && f[1][0] == 'b' {
        proof {
            assert(f@[1]@ =~= seq!['b']);
        }
        false
    } else {
        proof {
            if f@[1]@ == seq!['w'] {
                assert(f@[1]@[0] == 'w');
            }
            if f@[1]@ == seq!['b'] {
                assert(f@[1]@[0] == 'b');
            }
        }
        return Err(FenError::ActiveColour);
    };
    let castling = match parse_castling(&f[2]) {
        Some(c) => c,
        None => return Err(FenError::Castling),
    };
    let ep = match parse_en_passant(&f[3]) {
        Some(e) => e,
        None => return Err(FenError::EnPassant),
    };
    let clock = match parse_decimal(&f[4], 255) {
        Some(n) => n,
        None => return Err(FenError::HalfMoveClock),
    };
    let mov = match parse_decimal(&f[5], 65535) {
        Some(n) => n,
        None => return Err(FenError::FullMoveNumber),
    };
    let twice = mov * 2;
    if white && twice == 0 {
        return Err(FenError::FullMoveNumber);
    }
    let ply = if white {
        twice - 1
    } else {
        twice
    };
    if ply > 65535 {
        return Err(FenError::FullMoveNumber);
    }
    let pos = Position {
        board,
        was_blacks_move: white,
        castling,
        ply_clock: clock as u8,
        en_passant_targ: ep,
        check: None,
        last_ply: None,
    };
    let mut history: Vec<Position> = Vec::new();
    history.push(pos);
    Ok(Game { history, ply: ply as u16, mov: mov as u16, state: None })
}

proof fn lemma_scan_concat(st: Option<(int, int, Board)>, x: Seq<char>, y: Seq<char>)
    ensures
        placement_scan_from(st, x + y) == placement_scan_from(placement_scan_from(st, x), y),
    decreases y.len(),
{
    if y.len() == 0 {
        assert(x + y =~= x);
    } else {
        assert((x + y).drop_last() =~= x + y.drop_last());
        assert((x + y).last() == y.last());
        lemma_scan_concat(st, x, y.drop_last());
    }
}

proof fn lemma_scan_one(st: Option<(int, int, Board)>, c: char)
    ensures
        placement_scan_from(st, seq![c]) == match st {
            Some(x) => placement_step(x, c),
            None => None,
        },
{
    assert(seq![c].drop_last() =~= Seq::<char>::empty());
    assert(placement_scan_from(st, Seq::<char>::empty()) == st);
    assert(seq![c].last() == c);
}

/// Square `s` comes before rank `r`, file `f` in reading order (rank 8 first, file a first).
pub open spec fn read_before(s: int, r: int, f: int) -> bool {
    rank_of(s) > r || (rank_of(s) == r && file_of(s) < f)
}

/// `bd` holds the pieces of `b` on the squares read before rank `r`, file `f`, and no others.
pub open spec fn filled_before(bd: Board, b: Board, r: int, f: int) -> bool {
    forall|s: int, p: Piece, c: Colour| #[trigger]
        has_sq(bd.mask(p, c), s) == (is_square(s) && read_before(s, r, f) && b.cell(s) == Some(
            (p, c),
        ))
}

proof fn lemma_with_bits_mask(bd: Board, p: Piece, c: Colour, bits: u64, p2: Piece, c2: Colour)
    ensures
        bd.with_bits(p, c, bits).mask(p2, c2) == if p2 == p && c2 == c {
            bd.mask(p, c) | bits
        } else {
            bd.mask(p2, c2)
        },
{
}

proof fn lemma_piece_char_back(p: Piece, c: Colour)
    ensures
        piece_of_char(piece_char(p, c)) == Some((p, c)),
        run_length(piece_char(p, c)) == 0,
        piece_char(p, c) != '/',
{
}

proof fn lemma_run_text_scan(r: int, f: int, run: int, bd: Board)
    requires
        0 < run <= 8,
        f + run <= 8,
    ensures
        placement_scan_from(Some((r, f, bd)), run_text(run)) == Some((r, f + run, bd)),
{
    lemma_scan_one(Some((r, f, bd)), digit_char(run));
}

/// Reading the text of rank `r` from file `f` on, after `run` empty squares.
proof fn lemma_rank_scan(b: Board, r: int, f: int, run: int, bd: Board) -> (out: Board)
    requires
        0 <= r < 8,
        0 <= run <= f <= 8,
        run <= 8,
        filled_before(bd, b, r, f - run),
        forall|k: int| f - run <= k < f ==> (#[trigger] b.cell(r * 8 + k)).is_none(),
    ensures
        placement_scan_from(Some((r, f - run, bd)), b.rank_text(r, f, run)) == Some((r, 8int, out)),
        filled_before(out, b, r, 8),
    decreases 8 - f,
{
    if f >= 8 {
        if run > 0 {
            lemma_run_text_scan(r, f - run, run, bd);
        } else {
            assert(run_text(run) =~= Seq::<char>::empty());
        }
        assert forall|s: int, p: Piece, c: Colour| #[trigger]
            has_sq(bd.mask(p, c), s) == (is_square(s) && read_before(s, r, 8) && b.cell(s) == Some(
                (p, c),
            )) by {
            if is_square(s) && rank_of(s) == r && file_of(s) >= f - run {
                lemma_square_parts(s);
                assert(b.cell(r * 8 + file_of(s)).is_none());
            }
        }
        bd
    } else {
        let sq = r * 8 + f;
        match b.cell(sq) {
            None => {
                assert(b.rank_text(r, f, run) == b.rank_text(r, f + 1, run + 1));
                lemma_rank_scan(b, r, f + 1, run + 1, bd)
            },
            Some((p, c)) => {
                let ch = piece_char(p, c);
                let rest = b.rank_text(r, f + 1, 0);
                assert(b.rank_text(r, f, run) == run_text(run) + seq![ch] + rest);
                let st0 = Some((r, f - run, bd));
                if run > 0 {
                    lemma_run_text_scan(r, f - run, run, bd);
                } else {
                    assert(run_text(run) =~= Seq::<char>::empty());
                }
                assert(placement_scan_from(st0, run_text(run)) == Some((r, f, bd)));
                assert(filled_before(bd, b, r, f)) by {
                    assert forall|s: int, p2: Piece, c2: Colour| #[trigger]
                        has_sq(bd.mask(p2, c2), s) == (is_square(s) && read_before(s, r, f)
                            && b.cell(s) == Some((p2, c2))) by {
                        if is_square(s) && rank_of(s) == r && f - run <= file_of(s) < f {
                            lemma_square_parts(s);
                            assert(b.cell(r * 8 + file_of(s)).is_none());
                        }
                    }
                }
                lemma_piece_char_back(p, c);
                lemma_scan_one(Some((r, f, bd)), ch);
                let bd2 = bd.with_bits(p, c, single(sq));
                assert(placement_scan_from(Some((r, f, bd)), seq![ch]) == Some((r, f + 1, bd2)));
                assert(filled_before(bd2, b, r, f + 1)) by {
                    assert forall|s: int, p2: Piece, c2: Colour| #[trigger]
                        has_sq(bd2.mask(p2, c2), s) == (is_square(s) && read_before(s, r, f + 1)
                            && b.cell(s) == Some((p2, c2))) by {
                        lemma_with_bits_mask(bd, p, c, single(sq), p2, c2);
                        lemma_has_single(sq, s);
                        assert(has_sq(bd.mask(p2, c2), s) == (is_square(s) && read_before(s, r, f)
                            && b.cell(s) == Some((p2, c2))));
                        if is_square(s) {
                            lemma_square_parts(s);
                        }
                    }
                }
                let out = lemma_rank_scan(b, r, f + 1, 0, bd2);
                lemma_scan_concat(st0, run_text(run), seq![ch]);
                lemma_scan_concat(st0, run_text(run) + seq![ch], rest);
                out
            },
        }
    }
}

/// Reading the ranks from `r` down to the first.
proof fn lemma_ranks_scan(b: Board, r: int, bd: Board) -> (out: Board)
    requires
        0 <= r < 8,
        filled_before(bd, b, r, 0),
    ensures
        placement_scan_from(Some((r, 0int, bd)), b.ranks_text(r)) == Some((0int, 8int, out)),
        filled_before(out, b, 0, 8),
    decreases r,
{
    let mid = lemma_rank_scan(b, r, 0, 0, bd);
    if r == 0 {
        mid
    } else {
        let line = b.rank_text(r, 0, 0);
        let st0 = Some((r, 0, bd));
        lemma_scan_one(Some((r, 8, mid)), '/');
        assert(filled_before(mid, b, r - 1, 0)) by {
            assert forall|s: int, p: Piece, c: Colour| #[trigger]
                has_sq(mid.mask(p, c), s) == (is_square(s) && read_before(s, r - 1, 0) && b.cell(s)
                    == Some((p, c))) by {
                if is_square(s) {
                    lemma_square_parts(s);
                }
            }
        }
        let out = lemma_ranks_scan(b, r - 1, mid);
        lemma_scan_concat(st0, line, seq!['/']);
        lemma_scan_concat(st0, line + seq!['/'], b.ranks_text(r - 1));
        out
    }
}

/// On a board whose bitboards are disjoint, the piece on a square is the one whose bitboard holds it.
proof fn lemma_cell_of_wf(b: Board, s: int, p: Piece, c: Colour)
    requires
        b.wf(),
        is_square(s),
    ensures
        (b.cell(s) == Some((p, c))) == has_sq(b.mask(p, c), s),
{
    let m = b.mask(p, c);
    if has_sq(m, s) {
        assert(has_sq(b.mask(Piece::Pawn, Colour::White), s) ==> p == Piece::Pawn && c == Colour::White);
        assert(has_sq(b.mask(Piece::Rook, Colour::White), s) ==> p == Piece::Rook && c == Colour::White);
        assert(has_sq(b.mask(Piece::Knight, Colour::White), s) ==> p == Piece::Knight && c == Colour::White);
        assert(has_sq(b.mask(Piece::Bishop, Colour::White), s) ==> p == Piece::Bishop && c == Colour::White);
        assert(has_sq(b.mask(Piece::Queen, Colour::White), s) ==> p == Piece::Queen && c == Colour::White);
        assert(has_sq(b.mask(Piece::King, Colour::White), s) ==> p == Piece::King && c == Colour::White);
        assert(has_sq(b.mask(Piece::Pawn, Colour::Black), s) ==> p == Piece::Pawn && c == Colour::Black);
        assert(has_sq(b.mask(Piece::Rook, Colour::Black), s) ==> p == Piece::Rook && c == Colour::Black);
        assert(has_sq(b.mask(Piece::Knight, Colour::Black), s) ==> p == Piece::Knight && c == Colour::Black);
        assert(has_sq(b.mask(Piece::Bishop, Colour::Black), s) ==> p == Piece::Bishop && c == Colour::Black);
        assert(has_sq(b.mask(Piece::Queen, Colour::Black), s) ==> p == Piece::Queen && c == Colour::Black);
    }
}

/// Decoding the placement text of a board whose twelve bitboards are disjoint
/// gives that board back.
pub proof fn lemma_placement_decodes_back(b: Board)
    requires
        b.wf(),
    ensures
        placement_board(b.placement_text()) == Some(b),
{
    let e = Board::empty_board();
    assert(filled_before(e, b, 7, 0)) by {
        assert forall|s: int, p: Piece, c: Colour| #[trigger]
            has_sq(e.mask(p, c), s) == (is_square(s) && read_before(s, 7, 0) && b.cell(s) == Some(
                (p, c),
            )) by {
            if is_square(s) {
                lemma_square_parts(s);
            }
        }
    }
    let out = lemma_ranks_scan(b, 7, e);
    assert forall|p: Piece, c: Colour| #[trigger] out.mask(p, c) == b.mask(p, c) by {
        assert forall|s: int| is_square(s) implies #[trigger] has_sq(out.mask(p, c), s) == has_sq(
            b.mask(p, c),
            s,
        ) by {
            lemma_square_parts(s);
            lemma_cell_of_wf(b, s, p, c);
        }
        lemma_bitboard_ext(out.mask(p, c), b.mask(p, c));
    }
    assert(out.mask(Piece::Pawn, Colour::White) == b.mask(Piece::Pawn, Colour::White));
    assert(out.mask(Piece::Rook, Colour::White) == b.mask(Piece::Rook, Colour::White));
    assert(out.mask(Piece::Knight, Colour::White) == b.mask(Piece::Knight, Colour::White));
    assert(out.mask(Piece::Bishop, Colour::White) == b.mask(Piece::Bishop, Colour::White));
    assert(out.mask(Piece::Queen, Colour::White) == b.mask(Piece::Queen, Colour::White));
    assert(out.mask(Piece::King, Colour::White) == b.mask(Piece::King, Colour::White));
    assert(out.mask(Piece::Pawn, Colour::Black) == b.mask(Piece::Pawn, Colour::Black));
    assert(out.mask(Piece::Rook, Colour::Black) == b.mask(Piece::Rook, Colour::Black));
    assert(out.mask(Piece::Knight, Colour::Black) == b.mask(Piece::Knight, Colour::Black));
    assert(out.mask(Piece::Bishop, Colour::Black) == b.mask(Piece::Bishop, Colour::Black));
    assert(out.mask(Piece::Queen, Colour::Black) == b.mask(Piece::Queen, Colour::Black));
    assert(out.mask(Piece::King, Colour::Black) == b.mask(Piece::King, Colour::Black));
    assert(out == b);
}

/// Placement round trip: a valid placement string, that is the placement text
/// of a board whose twelve bitboards are disjoint, decodes to a board whose
/// placement text is that same string.
pub proof fn lemma_placement_round_trip(p: Seq<char>)
    requires
        exists|b: Board| b.wf() && b.placement_text() == p,
    ensures
        placement_board(p) is Some,
        placement_board(p)->0.placement_text() == p,
{
    let b = choose|b: Board| b.wf() && b.placement_text() == p;
    lemma_placement_decodes_back(b);
}

/// No character of `s` is a space.
pub open spec fn no_space(s: Seq<char>) -> bool {
    forall|i: int| 0 <= i < s.len() ==> #[trigger] s[i] != ' '
}

/// Text without spaces is a single field.
pub proof fn lemma_split_one(x: Seq<char>)
    requires
        no_space(x),
    ensures
        split_fields(x) == seq![x],
    decreases x.len(),
{
    if x.len() > 0 {
        let y = x.drop_last();
        assert(no_space(y)) by {
            assert forall|i: int| 0 <= i < y.len() implies #[trigger] y[i] != ' ' by {
                assert(y[i] == x[i]);
            }
        }
        lemma_split_one(y);
        assert(x.last() == x[x.len() - 1]);
        assert(y.push(x.last()) =~= x);
        assert(seq![y].update(0, y.push(x.last())) =~= seq![x]);
    } else {
        assert(x =~= Seq::<char>::empty());
    }
}

/// A space followed by text without spaces adds one field.
pub proof fn lemma_split_push(p: Seq<char>, y: Seq<char>)
    requires
        no_space(y),
    ensures
        split_fields(p + seq![' '] + y) == split_fields(p).push(y),
    decreases y.len(),
{
    if y.len() == 0 {
        assert(p + seq![' '] + y =~= p.push(' '));
        assert((p.push(' ')).drop_last() =~= p);
        assert((p.push(' ')).last() == ' ');
        assert(y =~= Seq::<char>::empty());
        assert(split_fields(p.push(' ')) == split_fields(p).push(Seq::empty()));
    } else {
        let z = y.drop_last();
        assert(no_space(z)) by {
            assert forall|i: int| 0 <= i < z.len() implies #[trigger] z[i] != ' ' by {
                assert(z[i] == y[i]);
            }
        }
        lemma_split_push(p, z);
        let whole = p + seq![' '] + y;
        assert(whole.drop_last() =~= p + seq![' '] + z);
        assert(whole.last() == y[y.len() - 1]);
        lemma_split_nonempty(p);
        assert(whole.last() != ' ');
        let prev = split_fields(p).push(z);
        assert(split_fields(whole) == prev.update(prev.len() - 1, prev.last().push(whole.last())));
        assert(prev.update(prev.len() - 1, prev.last().push(whole.last())) =~= split_fields(p).push(
            y,
        )) by {
            assert(z.push(y.last()) =~= y);
        }
    }
}

pub proof fn lemma_no_space_concat(a: Seq<char>, b: Seq<char>)
    requires
        no_space(a),
        no_space(b),
    ensures
        no_space(a + b),
{
    assert forall|i: int| 0 <= i < (a + b).len() implies #[trigger] (a + b)[i] != ' ' by {
        if i < a.len() {
            assert((a + b)[i] == a[i]);
        } else {
            assert((a + b)[i] == b[i - a.len()]);
        }
    }
}

proof fn lemma_rank_text_no_space(b: Board, r: int, f: int, run: int)
    ensures
        no_space(b.rank_text(r, f, run)),
    decreases 8 - f,
{
    if f >= 8 {
    } else {
        match b.cell(r * 8 + f) {
            None => {
                lemma_rank_text_no_space(b, r, f + 1, run + 1);
            },
            Some((p, c)) => {
                lemma_rank_text_no_space(b, r, f + 1, 0);
                lemma_no_space_concat(run_text(run), seq![piece_char(p, c)]);
                lemma_no_space_concat(run_text(run) + seq![piece_char(p, c)], b.rank_text(r, f + 1, 0));
            },
        }
    }
}

/// The placement text holds no space.
pub proof fn lemma_placement_no_space(b: Board, r: int)
    ensures
        no_space(b.ranks_text(r)),
    decreases r,
{
    if r <= 0 {
        lemma_rank_text_no_space(b, 0, 0, 0);
    } else {
        lemma_rank_text_no_space(b, r, 0, 0);
        assert(no_space(seq!['/']));
        assert(b.ranks_text(r) == b.rank_text(r, 0, 0) + seq!['/'] + b.ranks_text(r - 1));
        lemma_placement_no_space(b, r - 1);
        lemma_no_space_concat(b.rank_text(r, 0, 0), seq!['/']);
        lemma_no_space_concat(b.rank_text(r, 0, 0) + seq!['/'], b.ranks_text(r - 1));
    }
}

pub(crate) proof fn lemma_castling_push(t: Seq<char>, ch: char)
    requires
        castling_bit(ch) != 0,
    ensures
        castling_letters(t.push(ch)) == match castling_letters(t) {
            Some(v) => Some(v | castling_bit(ch)),
            None => None::<u8>,
        },
{
    assert(t.push(ch).drop_last() =~= t);
}

} // verus!
