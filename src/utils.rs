//! Bitboards as text: binary digits and a small picture of the board.
use vstd::prelude::*;
use crate::bitboard::{bit, has_sq, is_square, group_bitboard};
use crate::square::rank_char;
use crate::text::push_char;

verus! {

broadcast use group_bitboard;

/// Bit `i` of a byte.
pub open spec fn byte_bit(b: u8, i: u8) -> bool {
    (b >> i) & 1u8 == 1u8
}

/// The `n` low bits of `x` as binary digits, the highest first.
pub open spec fn binary_text(x: u64, n: nat) -> Seq<char> {
    Seq::new(n, |j: int| if bit(x, (n - 1 - j) as u64) { '1' } else { '0' })
}

/// One rank of a bitboard picture: a space, then `1` or `·`, per file from a to h.
pub open spec fn picture_row(bb: u64, r: int, f: int) -> Seq<char>
    decreases 8 - f,
{
    if f >= 8 {
        Seq::empty()
    } else {
        seq![' ', if has_sq(bb, r * 8 + f) { '1' } else { '·' }] + picture_row(bb, r, f + 1)
    }
}

/// Ranks `r` down to 1 of a bitboard picture, each led by its digit, one per line.
pub open spec fn picture_rows(bb: u64, r: int) -> Seq<char>
    decreases r,
{
    let row = seq![rank_char(r)] + picture_row(bb, r, 0);
    if r <= 0 {
        row
    } else {
        row + seq!['\n'] + picture_rows(bb, r - 1)
    }
}

/// The file letters under a bitboard picture.
pub open spec fn picture_footer() -> Seq<char> {
    seq!['\n', '~', ' ', 'A', ' ', 'B', ' ', 'C', ' ', 'D', ' ', 'E', ' ', 'F', ' ', 'G', ' ', 'H']
}

proof fn lemma_rev_bits(b: u8, i: u8)
    by (bit_vector)
    requires
        i < 8,
    ensures
        ({
            let x = (b & 0xF0) >> 4u8 | (b & 0x0F) << 4u8;
            let y = (x & 0xCC) >> 2u8 | (x & 0x33) << 2u8;
            let z = (y & 0xAA) >> 1u8 | (y & 0x55) << 1u8;
            byte_bit(z, i) == byte_bit(b, (7 - i) as u8)
        }),
{
}

/// The byte with its bits in reverse order: bit `i` of the result is bit `7 - i` of `b`.
pub fn rev_rank(b: u8) -> (r: u8)
    ensures
        forall|i: u8| i < 8 ==> #[trigger] byte_bit(r, i) == byte_bit(b, (7 - i) as u8),
{
    let x = (b & 0xF0) >> 4u8 | (b & 0x0F) << 4u8;
    let y = (x & 0xCC) >> 2u8 | (x & 0x33) << 2u8;
    let z = (y & 0xAA) >> 1u8 | (y & 0x55) << 1u8;
    proof {
        assert forall|i: u8| i < 8 implies #[trigger] byte_bit(z, i) == byte_bit(b, (7 - i) as u8) by {
            lemma_rev_bits(b, i);
        }
    }
    z
}

/// The `n` low bits of `x` as binary digits, the highest first.
fn binary_string(x: u64, n: u64) -> (r: String)
    requires
        n <= 64,
    ensures
        r@ == binary_text(x, n as nat),
{
    let mut out = String::new();
    let mut j: u64 = 0;
    while j < n
        invariant
            j <= n <= 64,
            out@ =~= Seq::new(j as nat, |k: int| if bit(x, (n - 1 - k) as u64) { '1' } else { '0' }),
        decreases n - j,
    {
        let c = if (x >> (n - 1 - j)) & 1 == 1 {
            '1'
        } else {
            '0'
        };
        push_char(&mut out, c);
        j = j + 1;
    }
    out
}

/// The 64 bits of a bitboard as binary digits, h8 first and a1 last.
pub fn bb_to_str(bb: u64) -> (r: String)
    ensures
        r@ == binary_text(bb, 64),
{
    binary_string(bb, 64)
}

/// The 8 bits of a byte as binary digits, the highest first.
pub fn rank_to_str(r: u8) -> (s: String)
    ensures
        s@ == binary_text(r as u64, 8),
{
    binary_string(r as u64, 8)
}

/// A picture of a bitboard: ranks 8 to 1, files a to h, `1` for a set square
/// and `·` for a clear one, with the file letters below.
pub fn pp_bb(bb: u64) -> (r: String)
    ensures
        r@ == picture_rows(bb, 7) + picture_footer(),
{
    let mut out = String::new();
    let mut rank: i8 = 7;
    while rank >= 0
        invariant
            -1 <= rank <= 7,
            out@ + (if rank >= 0 {
                picture_rows(bb, rank as int)
            } else {
                Seq::empty()
            }) == picture_rows(bb, 7),
        decreases rank + 1,
    {
        let ghost before = out@;
        push_char(&mut out, crate::square::rank_digit(rank as u8));
        let mut f: u64 = 0;
        while f < 8
            invariant
                0 <= rank <= 7,
                f <= 8,
                out@ + picture_row(bb, rank as int, f as int) == before + seq![rank_char(rank as int)]
                    + picture_row(bb, rank as int, 0),
            decreases 8 - f,
        {
            let s: u64 = (rank as u64) * 8 + f;
            let ghost mid = out@;
            push_char(&mut out, ' ');
            proof {
                assert(is_square(s as int));
            }
            if (bb >> s) & 1 == 1 {
                push_char(&mut out, '1');
            } else {
                push_char(&mut out, '·');
            }
            proof {
                assert(out@ + picture_row(bb, rank as int, f + 1) =~= mid + picture_row(
                    bb,
                    rank as int,
                    f as int,
                ));
            }
            f = f + 1;
        }
        if rank > 0 {
            push_char(&mut out, '\n');
        }
        proof {
            if rank > 0 {
                assert(out@ + picture_rows(bb, rank - 1) =~= before + picture_rows(bb, rank as int));
            } else {
                assert(out@ =~= before + picture_rows(bb, rank as int));
            }
        }
        rank = rank - 1;
    }
    let ghost body = out@;
    let footer = ['\n', '~', ' ', 'A', ' ', 'B', ' ', 'C', ' ', 'D', ' ', 'E', ' ', 'F', ' ', 'G', ' ', 'H'];
    let mut k: usize = 0;
    while k < 18
        invariant
            k <= 18,
            footer@ == picture_footer(),
            out@ == body + picture_footer().take(k as int),
        decreases 18 - k,
    {
        push_char(&mut out, footer[k]);
        k = k + 1;
        proof {
            assert(out@ =~= body + picture_footer().take(k as int));
        }
    }
    proof {
        assert(body =~= picture_rows(bb, 7));
        assert(picture_footer().take(18) =~= picture_footer());
    }
    out
}

} // verus!
