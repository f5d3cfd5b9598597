//! Squares by name, and algebraic square notation.
use vstd::prelude::*;
use crate::bitboard::{
    group_bitboard, has_sq, is_square, single, file_of, rank_of, lemma_has_single, lemma_has_zero,
};
use crate::text::push_char;

verus! {

broadcast use group_bitboard;

/// A square of the board; its index is `rank * 8 + file`, a1 = 0 ... h8 = 63.
#[derive(Clone, Copy, Debug, PartialEq, Eq, Structural)]
pub enum Square {
    A1, B1, C1, D1, E1, F1, G1, H1,
    A2, B2, C2, D2, E2, F2, G2, H2,
    A3, B3, C3, D3, E3, F3, G3, H3,
    A4, B4, C4, D4, E4, F4, G4, H4,
    A5, B5, C5, D5, E5, F5, G5, H5,
    A6, B6, C6, D6, E6, F6, G6, H6,
    A7, B7, C7, D7, E7, F7, G7, H7,
    A8, B8, C8, D8, E8, F8, G8, H8,
}

/// Another name of `Square`.
pub type Squares = Square;

/// The file letter `a`..`h` of a file index.
pub open spec fn file_char(f: int) -> char {
    if f == 0 { 'a' } else if f == 1 { 'b' } else if f == 2 { 'c' } else if f == 3 { 'd' }
    else if f == 4 { 'e' } else if f == 5 { 'f' } else if f == 6 { 'g' } else { 'h' }
}

/// The rank digit `1`..`8` of a rank index.
pub open spec fn rank_char(r: int) -> char {
    if r == 0 { '1' } else if r == 1 { '2' } else if r == 2 { '3' } else if r == 3 { '4' }
    else if r == 4 { '5' } else if r == 5 { '6' } else if r == 6 { '7' } else { '8' }
}

/// The file index of a file letter, either case.
pub open spec fn file_index(c: char) -> int {
    if c == 'a' || c == 'A' { 0 } else if c == 'b' || c == 'B' { 1 } else if c == 'c' || c == 'C' { 2 }
    else if c == 'd' || c == 'D' { 3 } else if c == 'e' || c == 'E' { 4 } else if c == 'f' || c == 'F' { 5 }
    else if c == 'g' || c == 'G' { 6 } else if c == 'h' || c == 'H' { 7 } else { -1 }
}

/// The rank index of a rank digit.
pub open spec fn rank_index(c: char) -> int {
    if c == '1' { 0 } else if c == '2' { 1 } else if c == '3' { 2 } else if c == '4' { 3 }
    else if c == '5' { 4 } else if c == '6' { 5 } else if c == '7' { 6 } else if c == '8' { 7 } else { -1 }
}

/// The square that two characters of algebraic notation name, if any.
pub open spec fn parse_square(s: Seq<char>) -> Option<int> {
    if s.len() == 2 && file_index(s[0]) >= 0 && rank_index(s[1]) >= 0 {
        Some(rank_index(s[1]) * 8 + file_index(s[0]))
    } else {
        None
    }
}

/// The algebraic name of a square, in lower case.
pub open spec fn square_name(s: int) -> Seq<char> {
    seq![file_char(file_of(s)), rank_char(rank_of(s))]
}

impl Square {
    pub open spec fn index(self) -> int {
        match self {
            Square::A1 => 0,
            Square::B1 => 1,
            Square::C1 => 2,
            Square::D1 => 3,
            Square::E1 => 4,
            Square::F1 => 5,
            Square::G1 => 6,
            Square::H1 => 7,
            Square::A2 => 8,
            Square::B2 => 9,
            Square::C2 => 10,
            Square::D2 => 11,
            Square::E2 => 12,
            Square::F2 => 13,
            Square::G2 => 14,
            Square::H2 => 15,
            Square::A3 => 16,
            Square::B3 => 17,
            Square::C3 => 18,
            Square::D3 => 19,
            Square::E3 => 20,
            Square::F3 => 21,
            Square::G3 => 22,
            Square::H3 => 23,
            Square::A4 => 24,
            Square::B4 => 25,
            Square::C4 => 26,
            Square::D4 => 27,
            Square::E4 => 28,
            Square::F4 => 29,
            Square::G4 => 30,
            Square::H4 => 31,
            Square::A5 => 32,
            Square::B5 => 33,
            Square::C5 => 34,
            Square::D5 => 35,
            Square::E5 => 36,
            Square::F5 => 37,
            Square::G5 => 38,
            Square::H5 => 39,
            Square::A6 => 40,
            Square::B6 => 41,
            Square::C6 => 42,
            Square::D6 => 43,
            Square::E6 => 44,
            Square::F6 => 45,
            Square::G6 => 46,
            Square::H6 => 47,
            Square::A7 => 48,
            Square::B7 => 49,
            Square::C7 => 50,
            Square::D7 => 51,
            Square::E7 => 52,
            Square::F7 => 53,
            Square::G7 => 54,
            Square::H7 => 55,
            Square::A8 => 56,
            Square::B8 => 57,
            Square::C8 => 58,
            Square::D8 => 59,
            Square::E8 => 60,
            Square::F8 => 61,
            Square::G8 => 62,
            Square::H8 => 63,
        }
    }

    /// The index of the square.
    pub fn idx(&self) -> (r: u8)
        ensures
            r == self.index(),
    {
        match self {
            Square::A1 => 0,
            Square::B1 => 1,
            Square::C1 => 2,
            Square::D1 => 3,
            Square::E1 => 4,
            Square::F1 => 5,
            Square::G1 => 6,
            Square::H1 => 7,
            Square::A2 => 8,
            Square::B2 => 9,
            Square::C2 => 10,
            Square::D2 => 11,
            Square::E2 => 12,
            Square::F2 => 13,
            Square::G2 => 14,
            Square::H2 => 15,
            Square::A3 => 16,
            Square::B3 => 17,
            Square::C3 => 18,
            Square::D3 => 19,
            Square::E3 => 20,
            Square::F3 => 21,
            Square::G3 => 22,
            Square::H3 => 23,
            Square::A4 => 24,
            Square::B4 => 25,
            Square::C4 => 26,
            Square::D4 => 27,
            Square::E4 => 28,
            Square::F4 => 29,
            Square::G4 => 30,
            Square::H4 => 31,
            Square::A5 => 32,
            Square::B5 => 33,
            Square::C5 => 34,
            Square::D5 => 35,
            Square::E5 => 36,
            Square::F5 => 37,
            Square::G5 => 38,
            Square::H5 => 39,
            Square::A6 => 40,
            Square::B6 => 41,
            Square::C6 => 42,
            Square::D6 => 43,
            Square::E6 => 44,
            Square::F6 => 45,
            Square::G6 => 46,
            Square::H6 => 47,
            Square::A7 => 48,
            Square::B7 => 49,
            Square::C7 => 50,
            Square::D7 => 51,
            Square::E7 => 52,
            Square::F7 => 53,
            Square::G7 => 54,
            Square::H7 => 55,
            Square::A8 => 56,
            Square::B8 => 57,
            Square::C8 => 58,
            Square::D8 => 59,
            Square::E8 => 60,
            Square::F8 => 61,
            Square::G8 => 62,
            Square::H8 => 63,
        }
    }

    /// The square of an index.
    pub fn from_index(value: usize) -> (r: Square)
        requires
            value < 64,
        ensures
            r.index() == value,
    {
        match value {
            0 => Square::A1,
            1 => Square::B1,
            2 => Square::C1,
            3 => Square::D1,
            4 => Square::E1,
            5 => Square::F1,
            6 => Square::G1,
            7 => Square::H1,
            8 => Square::A2,
            9 => Square::B2,
            10 => Square::C2,
            11 => Square::D2,
            12 => Square::E2,
            13 => Square::F2,
            14 => Square::G2,
            15 => Square::H2,
            16 => Square::A3,
            17 => Square::B3,
            18 => Square::C3,
            19 => Square::D3,
            20 => Square::E3,
            21 => Square::F3,
            22 => Square::G3,
            23 => Square::H3,
            24 => Square::A4,
            25 => Square::B4,
            26 => Square::C4,
            27 => Square::D4,
            28 => Square::E4,
            29 => Square::F4,
            30 => Square::G4,
            31 => Square::H4,
            32 => Square::A5,
            33 => Square::B5,
            34 => Square::C5,
            35 => Square::D5,
            36 => Square::E5,
            37 => Square::F5,
            38 => Square::G5,
            39 => Square::H5,
            40 => Square::A6,
            41 => Square::B6,
            42 => Square::C6,
            43 => Square::D6,
            44 => Square::E6,
            45 => Square::F6,
            46 => Square::G6,
            47 => Square::H6,
            48 => Square::A7,
            49 => Square::B7,
            50 => Square::C7,
            51 => Square::D7,
            52 => Square::E7,
            53 => Square::F7,
            54 => Square::G7,
            55 => Square::H7,
            56 => Square::A8,
            57 => Square::B8,
            58 => Square::C8,
            59 => Square::D8,
            60 => Square::E8,
            61 => Square::F8,
            62 => Square::G8,
            _ => Square::H8,
        }
    }

    /// The bitboard of this square alone.
    pub open spec fn bb(self) -> u64 {
        single(self.index())
    }

    /// The square of a bitboard that holds exactly one square.
    pub fn from_bb(bb: u64) -> (r: Square)
        requires
            exists|s: int| is_square(s) && bb == single(s),
        ensures
            bb == r.bb(),
    {
        let ghost s = choose|s: int| is_square(s) && bb == single(s);
        proof {
            lemma_has_single(s, s);
            vstd::std_specs::bits::axiom_u64_trailing_zeros(bb);
            assert(bb != 0) by {
                lemma_has_zero(s);
            }
            let tz = vstd::std_specs::bits::u64_trailing_zeros(bb) as int;
            assert(has_sq(bb, tz));
            lemma_has_single(s, tz);
        }
        let n = bb.trailing_zeros();
        Square::from_index(n as usize)
    }

    /// The bitboard of the square named in algebraic notation (either case), if it names one.
    pub fn str_to_u8(n: &str) -> (r: Option<u64>)
        ensures
            r == match parse_square(n@) {
                Some(s) => Some(single(s)),
                None => None::<u64>,
            },
    {
        if n.unicode_len() != 2 {
            return None;
        }
        let f = file_from_char(n.get_char(0));
        let rk = rank_from_char(n.get_char(1));
        if f < 0 || rk < 0 {
            return None;
        }
        let i = (rk as u64) * 8 + (f as u64);
        Some(1u64 << i)
    }

    /// The algebraic name of the square of a one-square bitboard, in lower case.
    pub fn bb_to_str(n: u64) -> (r: String)
        requires
            exists|s: int| is_square(s) && n == single(s),
        ensures
            forall|s: int| is_square(s) && n == single(s) ==> r@ == square_name(s),
    {
        let sq = Self::from_bb(n);
        let i = sq.idx();
        let mut r = String::new();
        push_char(&mut r, file_letter(i % 8));
        push_char(&mut r, rank_digit(i / 8));
        proof {
            assert forall|s: int| is_square(s) && n == single(s) implies r@ == square_name(s) by {
                lemma_has_single(s, s);
                lemma_has_single(sq.index(), s);
            }
        }
        r
    }

    /// The bitboard of this square alone.
    pub fn to_bb(self) -> (r: u64)
        ensures
            r == self.bb(),
    {
        1u64 << self.idx()
    }

    /// The bitboard of this square alone.
    pub fn as_bb(&self) -> (r: u64)
        ensures
            r == self.bb(),
    {
        1u64 << self.idx()
    }
}

/// Every square's index lies on the board.
pub proof fn lemma_square_index(sq: Square)
    ensures
        is_square(sq.index()),
{
}

/// The bitboard of the square named in algebraic notation (either case), if it names one.
pub fn squares(n: &str) -> (r: Option<u64>)
    ensures
        r == match parse_square(n@) {
            Some(s) => Some(single(s)),
            None => None::<u64>,
        },
{
    Square::str_to_u8(n)
}

pub(crate) fn file_from_char(c: char) -> (r: i8)
    ensures
        r == file_index(c),
{
    match c {
        'a' | 'A' => 0,
        'b' | 'B' => 1,
        'c' | 'C' => 2,
        'd' | 'D' => 3,
        'e' | 'E' => 4,
        'f' | 'F' => 5,
        'g' | 'G' => 6,
        'h' | 'H' => 7,
        _ => -1,
    }
}

pub(crate) fn rank_from_char(c: char) -> (r: i8)
    ensures
        r == rank_index(c),
{
    match c {
        '1' => 0,
        '2' => 1,
        '3' => 2,
        '4' => 3,
        '5' => 4,
        '6' => 5,
        '7' => 6,
        '8' => 7,
        _ => -1,
    }
}

pub(crate) fn file_letter(f: u8) -> (c: char)
    requires
        f < 8,
    ensures
        c == file_char(f as int),
{
    match f {
        0 => 'a',
        1 => 'b',
        2 => 'c',
        3 => 'd',
        4 => 'e',
        5 => 'f',
        6 => 'g',
        _ => 'h',
    }
}

pub(crate) fn rank_digit(r: u8) -> (c: char)
    requires
        r < 8,
    ensures
        c == rank_char(r as int),
{
    match r {
        0 => '1',
        1 => '2',
        2 => '3',
        3 => '4',
        4 => '5',
        5 => '6',
        6 => '7',
        _ => '8',
    }
}

} // verus!
