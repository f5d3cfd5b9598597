//! What the prompt shows while a move is being typed: which piece's moves to
//! draw and what to say about the squares named so far.
use vstd::prelude::*;
use crate::board::Board;
use crate::input::{is_space, is_space_char};
use crate::ply::{Colour, Movement, Piece};
use crate::square::{parse_square, file_from_char, rank_from_char, lemma_square_index, Square};
use crate::bitboard::single;
use crate::text::chars_of;

verus! {

/// The reaction to a partly typed line. Squares are given by index; `word`
/// is the position of a word in the line.
#[derive(Clone, Copy, Debug, PartialEq, Eq, Structural)]
pub enum Feedback {
    /// Nothing to show or say.
    Nothing,
    /// A draw was offered before a move; the moves of the piece on `shown` may be drawn.
    DrawTooEarly { shown: Option<u8> },
    /// Draw the moves of the player's piece on this square.
    Moves(u8),
    /// The piece on this square belongs to the other player.
    NotYours(Piece, u8),
    /// No piece stands on this square.
    NoPiece(u8),
    /// A word is not a square; the moves of the piece on `shown` may be drawn.
    UnknownInput { shown: Option<u8>, word: u8 },
    /// The piece on the first square goes to the empty second square.
    MoveTo(u8, Piece, u8),
    /// The piece on the square captures the other piece named.
    Takes(u8, Piece, Piece),
    /// The piece on the square cannot capture on the square named.
    InvalidAttack(u8),
    /// The second square holds a piece of the player too.
    OwnTarget(u8),
}

/// The state of splitting into words: the words closed so far and the one being read.
pub open spec fn word_scan(s: Seq<char>) -> (Seq<Seq<char>>, Seq<char>)
    decreases s.len(),
{
    if s.len() == 0 {
        (Seq::empty(), Seq::empty())
    } else {
        let (done, cur) = word_scan(s.drop_last());
        if is_space(s.last()) {
            if cur.len() > 0 {
                (done.push(cur), Seq::empty())
            } else {
                (done, Seq::empty())
            }
        } else {
            (done, cur.push(s.last()))
        }
    }
}

/// The words of `s`: its longest runs of characters other than white space.
pub open spec fn words(s: Seq<char>) -> Seq<Seq<char>> {
    let (done, cur) = word_scan(s);
    if cur.len() > 0 {
        done.push(cur)
    } else {
        done
    }
}

pub open spec fn is_draw(w: Seq<char>) -> bool {
    w == seq!['d', 'r', 'a', 'w']
}

/// The feedback for a board, the player to move and the words typed.
pub open spec fn feedback_of(b: Board, colour: Colour, ws: Seq<Seq<char>>) -> Feedback {
    if ws.len() == 1 {
        if is_draw(ws[0]) {
            Feedback::DrawTooEarly { shown: None }
        } else {
            match parse_square(ws[0]) {
                None => Feedback::Nothing,
                Some(s) => match b.cell(s) {
                    Some((p, c)) => if c == colour {
                        Feedback::Moves(s as u8)
                    } else {
                        Feedback::NotYours(p, s as u8)
                    },
                    None => Feedback::NoPiece(s as u8),
                },
            }
        }
    } else if ws.len() == 2 {
        if is_draw(ws[1]) || is_draw(ws[0]) {
            let x = if is_draw(ws[1]) {
                ws[0]
            } else {
                ws[1]
            };
            match parse_square(x) {
                Some(s) => match b.cell(s) {
                    Some((_, c)) => if c == colour {
                        Feedback::DrawTooEarly { shown: Some(s as u8) }
                    } else {
                        Feedback::DrawTooEarly { shown: None }
                    },
                    None => Feedback::DrawTooEarly { shown: None },
                },
                None => Feedback::DrawTooEarly { shown: None },
            }
        } else {
            match parse_square(ws[0]) {
                None => Feedback::UnknownInput { shown: None, word: 0 },
                Some(fs) => match parse_square(ws[1]) {
                    None => Feedback::UnknownInput { shown: Some(fs as u8), word: 1 },
                    Some(ts) => match b.cell(fs) {
                        None => Feedback::NoPiece(fs as u8),
                        Some((fp, fc)) => match b.cell(ts) {
                            None => if fc == colour {
                                Feedback::MoveTo(fs as u8, fp, ts as u8)
                            } else {
                                Feedback::NotYours(fp, fs as u8)
                            },
                            Some((tp, tc)) => if fc == colour && tc != colour {
                                if b.capture_target(fs, ts) {
                                    Feedback::Takes(fs as u8, fp, tp)
                                } else {
                                    Feedback::InvalidAttack(fs as u8)
                                }
                            } else if fc == colour {
                                Feedback::OwnTarget(fs as u8)
                            } else {
                                Feedback::Nothing
                            },
                        },
                    },
                },
            }
        }
    } else {
        Feedback::Nothing
    }
}

/// The words of `s`.
fn split_words(s: &Vec<char>) -> (r: Vec<Vec<char>>)
    ensures
        r.deep_view() == words(s@),
{
    let mut done: Vec<Vec<char>> = Vec::new();
    let mut cur: Vec<char> = Vec::new();
    let mut i: usize = 0;
    proof {
        assert(s@.take(0) =~= Seq::<char>::empty());
    }
    while i < s.len()
        invariant
            i <= s.len(),
            word_scan(s@.take(i as int)) == (done.deep_view(), cur@),
        decreases s.len() - i,
    {
        let c = s[i];
        proof {
            assert(s@.take(i + 1).drop_last() =~= s@.take(i as int));
            assert(s@.take(i + 1).last() == c);
        }
        if is_space_char(c) {
            if cur.len() > 0 {
                let ghost old_done = done.deep_view();
                let ghost old_cur = cur@;
                proof {
                    assert(cur.deep_view() =~= cur@);
                }
                done.push(cur);
                proof {
                    assert(done.deep_view() =~= old_done.push(old_cur));
                }
            }
            cur = Vec::new();
        } else {
            cur.push(c);
        }
        i = i + 1;
    }
    proof {
        assert(s@.take(s@.len() as int) =~= s@);
    }
    if cur.len() > 0 {
        let ghost old_done = done.deep_view();
        let ghost old_cur = cur@;
        proof {
            assert(cur.deep_view() =~= cur@);
        }
        done.push(cur);
        proof {
            assert(done.deep_view() =~= old_done.push(old_cur));
        }
    }
    done
}

/// The square a word names, as an index.
fn word_square(w: &Vec<char>) -> (r: Option<u8>)
    ensures
        r == match parse_square(w@) {
            Some(s) => Some(s as u8),
            None => None::<u8>,
        },
        r.is_some() ==> r.unwrap() < 64,
{
    if w.len() != 2 {
        return None;
    }
    let f = file_from_char(w[0]);
    let rk = rank_from_char(w[1]);
    if f < 0 || rk < 0 {
        return None;
    }
    Some((rk as u8) * 8 + (f as u8))
}

fn word_is_draw(w: &Vec<char>) -> (r: bool)
    ensures
        r == is_draw(w@),
{
    let r = w.len() == 4 && w[0] == 'd' && w[1] == 'r' && w[2] == 'a' && w[3] == 'w';
    proof {
        if r {
            assert(w@ =~= seq!['d', 'r', 'a', 'w']);
        }
        if is_draw(w@) {
            assert(w@[0] == 'd' && w@[1] == 'r' && w@[2] == 'a' && w@[3] == 'w');
        }
    }
    r
}

/// The piece on the square of index `s`.
fn piece_on(b: &Board, s: u8) -> (r: Option<(Piece, Colour)>)
    requires
        s < 64,
    ensures
        r == b.cell(s as int),
{
    let bb = 1u64 << s;
    proof {
        assert(bb == single(s as int));
    }
    b.piece_at(bb)
}

/// The feedback for the line typed so far by the player of `colour`.
pub fn feedback(b: &Board, colour: Colour, line: &str) -> (r: Feedback)
    ensures
        r == feedback_of(*b, colour, words(line@)),
{
    let chars = chars_of(line);
    let ws = split_words(&chars);
    proof {
        assert forall|k: int| 0 <= k < ws@.len() implies #[trigger] words(line@)[k] == ws@[k]@ by {
            assert(ws@[k].deep_view() =~= ws@[k]@);
        }
    }
    if ws.len() == 1 {
        if word_is_draw(&ws[0]) {
            return Feedback::DrawTooEarly { shown: None };
        }
        match word_square(&ws[0]) {
            None => Feedback::Nothing,
            Some(s) => match piece_on(b, s) {
                Some((p, c)) => if c == colour {
                    Feedback::Moves(s)
                } else {
                    Feedback::NotYours(p, s)
                },
                None => Feedback::NoPiece(s),
            },
        }
    } else if ws.len() == 2 {
        let second_draw = word_is_draw(&ws[1]);
        if second_draw || word_is_draw(&ws[0]) {
            let x = if second_draw {
                &ws[0]
            } else {
                &ws[1]
            };
            match word_square(x) {
                Some(s) => match piece_on(b, s) {
                    Some((_, c)) => if c == colour {
                        Feedback::DrawTooEarly { shown: Some(s) }
                    } else {
                        Feedback::DrawTooEarly { shown: None }
                    },
                    None => Feedback::DrawTooEarly { shown: None },
                },
                None => Feedback::DrawTooEarly { shown: None },
            }
        } else {
            match word_square(&ws[0]) {
                None => Feedback::UnknownInput { shown: None, word: 0 },
                Some(fs) => match word_square(&ws[1]) {
                    None => Feedback::UnknownInput { shown: Some(fs), word: 1 },
                    Some(ts) => match piece_on(b, fs) {
                        None => Feedback::NoPiece(fs),
                        Some((fp, fc)) => match piece_on(b, ts) {
                            None => if fc == colour {
                                Feedback::MoveTo(fs, fp, ts)
                            } else {
                                Feedback::NotYours(fp, fs)
                            },
                            Some((tp, tc)) => if fc == colour && tc != colour {
                                let from = Square::from_index(fs as usize);
                                let (attacks, _) = b.possible_moves(from);
                                let to = 1u64 << ts;
                                proof {
                                    lemma_square_index(from);
                                    assert(to == single(ts as int));
                                    crate::board::lemma_meets_single(attacks, ts as int);
                                }
                                if attacks & to != 0 {
                                    Feedback::Takes(fs, fp, tp)
                                } else {
                                    Feedback::InvalidAttack(fs)
                                }
                            } else if fc == colour {
                                Feedback::OwnTarget(fs)
                            } else {
                                Feedback::Nothing
                            },
                        },
                    },
                },
            }
        }
    } else {
        Feedback::Nothing
    }
}

/// The movement that two words naming squares describe: the piece on the
/// first square goes to the second.
pub open spec fn movement_of(b: Board, ws: Seq<Seq<char>>) -> Option<(int, int, Piece)> {
    if ws.len() == 2 {
        match (parse_square(ws[0]), parse_square(ws[1])) {
            (Some(f), Some(t)) => match b.cell(f) {
                Some((p, _)) => Some((f, t, p)),
                None => None,
            },
            _ => None,
        }
    } else {
        None
    }
}

/// Reads a move typed as two squares, such as `e2 e4`, made by `player`
/// with whatever piece stands on the first square.
pub fn read_movement(b: &Board, player: Colour, line: &str) -> (r: Option<Movement>)
    ensures
        match movement_of(*b, words(line@)) {
            Some((f, t, p)) => r is Some && r->0.player == player && r->0.piece == p
                && r->0.from_sq.index() == f && r->0.to_sq.index() == t,
            None => r is None,
        },
{
    let chars = chars_of(line);
    let ws = split_words(&chars);
    proof {
        assert forall|k: int| 0 <= k < ws@.len() implies #[trigger] words(line@)[k] == ws@[k]@ by {
            assert(ws@[k].deep_view() =~= ws@[k]@);
        }
    }
    if ws.len() != 2 {
        return None;
    }
    let from = match word_square(&ws[0]) {
        Some(f) => f,
        None => return None,
    };
    let to = match word_square(&ws[1]) {
        Some(t) => t,
        None => return None,
    };
    match piece_on(b, from) {
        Some((p, _)) => Some(
            Movement::new(
                player,
                p,
                Square::from_index(from as usize),
                Square::from_index(to as usize),
            ),
        ),
        None => None,
    }
}

} // verus!
