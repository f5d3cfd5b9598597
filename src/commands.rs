//! What a line typed at the prompt asks for.
use vstd::prelude::*;
use crate::input::{trim, trimmed};
use crate::ply::PromotablePiece;
use crate::text::chars_of;

verus! {

/// A request typed at the move prompt.
#[derive(Clone, Copy, Debug, PartialEq, Eq, Structural)]
pub enum Command {
    /// `quit` or `exit`.
    Quit,
    /// `help` or `-h`.
    Help,
    /// `draw`.
    Draw,
    /// `surrender`, `surr` or `sur`.
    Surrender,
    /// Anything else: a move to be read.
    Move,
}

/// An answer to the promotion prompt.
#[derive(Clone, Copy, Debug, PartialEq, Eq, Structural)]
pub enum PromotionAnswer {
    Promote(PromotablePiece),
    /// `quit` or `exit`.
    Abort,
    /// Anything else.
    Unknown,
}

/// Relies on `str::to_lowercase`: the result depends on the characters alone.
pub uninterp spec fn lower_of(s: Seq<char>) -> Seq<char>;

/// Relies on `str::to_lowercase`, which maps every character to its lower case.
#[verifier::external_body]
fn lowercase(s: &str) -> (r: String)
    ensures
        r@ == lower_of(s@),
{
    s.to_lowercase()
}

/// The command that a trimmed, lower-case line asks for.
pub open spec fn command_of(t: Seq<char>) -> Command {
    if t == seq!['q', 'u', 'i', 't'] || t == seq!['e', 'x', 'i', 't'] {
        Command::Quit
    } else if t == seq!['h', 'e', 'l', 'p'] || t == seq!['-', 'h'] {
        Command::Help
    } else if t == seq!['d', 'r', 'a', 'w'] {
        Command::Draw
    } else if t == seq!['s', 'u', 'r', 'r', 'e', 'n', 'd', 'e', 'r'] || t == seq!['s', 'u', 'r', 'r']
        || t == seq!['s', 'u', 'r'] {
        Command::Surrender
    } else {
        Command::Move
    }
}

/// The answer that a lower-case line gives to the promotion prompt.
pub open spec fn promotion_of(t: Seq<char>) -> PromotionAnswer {
    if t == seq!['q', 'u', 'i', 't'] || t == seq!['e', 'x', 'i', 't'] {
        PromotionAnswer::Abort
    } else if t == seq!['q'] {
        PromotionAnswer::Promote(PromotablePiece::Queen)
    } else if t == seq!['b'] {
        PromotionAnswer::Promote(PromotablePiece::Bishop)
    } else if t == seq!['n'] {
        PromotionAnswer::Promote(PromotablePiece::Knight)
    } else if t == seq!['r'] {
        PromotionAnswer::Promote(PromotablePiece::Rook)
    } else {
        PromotionAnswer::Unknown
    }
}

fn is_word(t: &Vec<char>, w: &[char]) -> (r: bool)
    ensures
        r == (t@ == w@),
{
    if t.len() != w.len() {
        return false;
    }
    let mut i: usize = 0;
    while i < t.len()
        invariant
            i <= t.len() == w.len(),
            t@.take(i as int) == w@.take(i as int),
        decreases t.len() - i,
    {
        if t[i] != w[i] {
            return false;
        }
        i = i + 1;
        proof {
            assert(t@.take(i as int) =~= t@.take(i - 1).push(t@[i - 1]));
            assert(w@.take(i as int) =~= w@.take(i - 1).push(w@[i - 1]));
        }
    }
    proof {
        assert(t@ =~= t@.take(t@.len() as int));
        assert(w@ =~= w@.take(w@.len() as int));
    }
    true
}

/// The command that a lower-case line asks for, white space around it left aside.
pub fn command_from_lowered(line: &str) -> (r: Command)
    ensures
        r == command_of(trim(line@)),
{
    let chars = chars_of(line);
    let t = chars_of(trimmed(&chars).as_str());
    if is_word(&t, &['q', 'u', 'i', 't']) || is_word(&t, &['e', 'x', 'i', 't']) {
        Command::Quit
    } else if is_word(&t, &['h', 'e', 'l', 'p']) || is_word(&t, &['-', 'h']) {
        Command::Help
    } else if is_word(&t, &['d', 'r', 'a', 'w']) {
        Command::Draw
    } else if is_word(&t, &['s', 'u', 'r', 'r', 'e', 'n', 'd', 'e', 'r']) || is_word(
        &t,
        &['s', 'u', 'r', 'r'],
    ) || is_word(&t, &['s', 'u', 'r']) {
        Command::Surrender
    } else {
        Command::Move
    }
}

/// The command that a line asks for, in either case, white space around it left aside.
pub fn command_from_input(line: &str) -> (r: Command)
    ensures
        r == command_of(trim(lower_of(line@))),
{
    let lower = lowercase(line);
    command_from_lowered(lower.as_str())
}

/// The answer that a lower-case line gives to the promotion prompt.
pub fn promotion_from_lowered(line: &str) -> (r: PromotionAnswer)
    ensures
        r == promotion_of(line@),
{
    let t = chars_of(line);
    let quit = ['q', 'u', 'i', 't'];
    let exit = ['e', 'x', 'i', 't'];
    let q = ['q'];
    let b = ['b'];
    let n = ['n'];
    let r = ['r'];
    proof {
        assert(quit@ == seq!['q', 'u', 'i', 't']);
        assert(exit@ == seq!['e', 'x', 'i', 't']);
        assert(q@ == seq!['q']);
        assert(b@ == seq!['b']);
        assert(n@ == seq!['n']);
        assert(r@ == seq!['r']);
    }
    if is_word(&t, &quit) || is_word(&t, &exit) {
        PromotionAnswer::Abort
    } else if is_word(&t, &q) {
        PromotionAnswer::Promote(PromotablePiece::Queen)
    } else if is_word(&t, &b) {
        PromotionAnswer::Promote(PromotablePiece::Bishop)
    } else if is_word(&t, &n) {
        PromotionAnswer::Promote(PromotablePiece::Knight)
    } else if is_word(&t, &r) {
        PromotionAnswer::Promote(PromotablePiece::Rook)
    } else {
        PromotionAnswer::Unknown
    }
}

/// The answer that a line in either case gives to the promotion prompt.
pub fn promotion_from_input(line: &str) -> (r: PromotionAnswer)
    ensures
        r == promotion_of(lower_of(line@)),
{
    let lower = lowercase(line);
    promotion_from_lowered(lower.as_str())
}

} // verus!
