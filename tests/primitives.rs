use chess_bitboards::bitboard::{
    FILE_A, FILE_B, FILE_C, FILE_D, FILE_E, FILE_F, FILE_H, RANK_1, RANK_2, RANK_3, RANK_4,
    RANK_5, RANK_6, RANK_7,
};
use chess_bitboards::fill::{
    bish_moves_bb, rook_east_attacks, rook_moves_bb, rook_north_attacks, rook_south_attacks,
    rook_west_attacks,
};
use chess_bitboards::moves::{
    east_one, king_moves_bb, knight_moves_bb, north_east_one, pawn_attacks_bb,
    pawn_double_pushes_bb, pawn_single_pushes_bb, south_west_one, west_one,
};
use chess_bitboards::utils::{bb_to_str, pp_bb, rank_to_str, rev_rank};

fn sq(name: &str) -> u64 {
    chess_bitboards::square::Square::str_to_u8(name).unwrap()
}

#[test]
fn constants_rev_rank_test() {
    assert_eq!(0b11110000, rev_rank(0b00001111));
    assert_eq!(0b10100100, rev_rank(0b00100101));
    assert_eq!(0b10101010, rev_rank(0b01010101));
    assert_eq!(0b01010101, rev_rank(0b10101010));
}

#[test]
fn utils_rev_rank_test() {
    assert_eq!(0b11110000, rev_rank(0b00001111));
    assert_eq!(0b10100100, rev_rank(0b00100101));
    assert_eq!(0b10101010, rev_rank(0b01010101));
    assert_eq!(0b01010101, rev_rank(0b10101010));
}

#[test]
fn south() {
    let x = rook_south_attacks(RANK_7, !RANK_4);
    let mask = RANK_6 | RANK_5 | RANK_4;
    assert_eq!(mask, x, "\n{}", pp_bb(x));
}

#[test]
fn north() {
    let x = rook_north_attacks(RANK_2, !RANK_7);
    let mask = RANK_3 | RANK_4 | RANK_5 | RANK_6 | RANK_7;
    assert_eq!(mask, x, "\n{}", pp_bb(x));
}

#[test]
fn east() {
    let x = rook_east_attacks(FILE_B, !FILE_F);
    let mask = FILE_C | FILE_D | FILE_E | FILE_F;
    assert_eq!(mask, x, "\n{}", pp_bb(x));
}

#[test]
fn west() {
    let x = rook_west_attacks(FILE_F, !FILE_B);
    let mask = FILE_B | FILE_C | FILE_D | FILE_E;
    assert_eq!(mask, x, "\n{}", pp_bb(x));
}

#[test]
fn pawn_singles_test() {
    let white_initial = pawn_single_pushes_bb(RANK_2, u64::MAX, true);
    let black_initial = pawn_single_pushes_bb(RANK_7, u64::MAX, false);

    assert_eq!(RANK_3, white_initial);
    assert_eq!(RANK_6, black_initial);
}

#[test]
fn pawn_doubles_test() {
    let white_initial = pawn_double_pushes_bb(RANK_2, u64::MAX, true);
    let black_initial = pawn_double_pushes_bb(RANK_7, u64::MAX, false);

    assert_eq!(RANK_4, white_initial);
    assert_eq!(RANK_5, black_initial);
}

#[test]
fn knight_attack_counts_per_square() {
    for s in 0..64u64 {
        let n = knight_moves_bb(1u64 << s).count_ones();
        assert!((2..=8).contains(&n), "square {s} gives {n}");
    }
    for corner in ["a1", "a8", "h1", "h8"] {
        assert_eq!(2, knight_moves_bb(sq(corner)).count_ones());
    }
    for centre in ["d4", "d5", "e4", "e5"] {
        assert_eq!(8, knight_moves_bb(sq(centre)).count_ones());
    }
}

#[test]
fn knight_pattern_from_b1() {
    assert_eq!(sq("a3") | sq("c3") | sq("d2"), knight_moves_bb(sq("b1")));
}

#[test]
fn king_pattern_in_corner_and_centre() {
    assert_eq!(sq("a2") | sq("b1") | sq("b2"), king_moves_bb(sq("a1")));
    assert_eq!(8, king_moves_bb(sq("e4")).count_ones());
    assert_eq!(sq("g8") | sq("g7") | sq("h7"), king_moves_bb(sq("h8")));
}

#[test]
fn rook_from_d4_on_empty_board() {
    let r = rook_moves_bb(sq("d4"), u64::MAX);
    assert_eq!((FILE_D | RANK_4) & !sq("d4"), r);
    assert_eq!(14, r.count_ones());
}

#[test]
fn bishop_from_d4_on_empty_board() {
    let r = bish_moves_bb(sq("d4"), u64::MAX);
    let mut expected = 0u64;
    for name in ["a1", "b2", "c3", "e5", "f6", "g7", "h8", "a7", "b6", "c5", "e3", "f2", "g1"] {
        expected |= sq(name);
    }
    assert_eq!(expected, r);
    assert_eq!(13, r.count_ones());
}

#[test]
fn rook_stops_at_first_blocker() {
    let occupancy = sq("a1") | sq("a5") | sq("h1");
    let r = rook_moves_bb(sq("a1"), !occupancy);
    assert!(r & sq("a5") != 0);
    assert!(r & sq("h1") != 0);
    for name in ["a6", "a7", "a8"] {
        assert_eq!(0, r & sq(name));
    }
    assert_eq!(0, r & RANK_2 & !FILE_A);
    assert_eq!(
        sq("a2") | sq("a3") | sq("a4") | sq("a5") | (RANK_1 & !sq("a1")),
        r
    );
}

#[test]
fn shifts_do_not_wrap() {
    assert_eq!(0, east_one(FILE_H));
    assert_eq!(0, west_one(FILE_A));
    assert_eq!(0, north_east_one(FILE_H));
    assert_eq!(0, south_west_one(FILE_A));
    assert_eq!(sq("b2"), north_east_one(sq("a1")));
}

#[test]
fn pawn_captures_are_diagonal_forward() {
    assert_eq!(sq("d5") | sq("f5"), pawn_attacks_bb(sq("e4"), true));
    assert_eq!(sq("d3") | sq("f3"), pawn_attacks_bb(sq("e4"), false));
    assert_eq!(sq("b3"), pawn_attacks_bb(sq("a2"), true));
}

#[test]
fn double_push_needs_start_rank_and_free_path() {
    assert_eq!(0, pawn_double_pushes_bb(sq("e3"), u64::MAX, true));
    assert_eq!(0, pawn_double_pushes_bb(sq("e2"), !sq("e3"), true));
    assert_eq!(0, pawn_double_pushes_bb(sq("e2"), !sq("e4"), true));
    assert_eq!(sq("e4"), pawn_double_pushes_bb(sq("e2"), u64::MAX, true));
    assert_eq!(0, pawn_double_pushes_bb(sq("d6"), u64::MAX, false));
    assert_eq!(0, pawn_double_pushes_bb(sq("d7"), !sq("d6"), false));
}

#[test]
fn binary_text_of_bitboards() {
    assert_eq!("00000101", rank_to_str(5));
    let s = bb_to_str(1);
    assert_eq!(64, s.len());
    assert!(s.ends_with("01"));
    assert!(bb_to_str(1u64 << 63).starts_with("10"));
}

#[test]
fn picture_of_a_bitboard() {
    let p = pp_bb(sq("a1") | sq("h8"));
    let lines: Vec<&str> = p.lines().collect();
    assert_eq!(9, lines.len());
    assert_eq!("8 · · · · · · · 1", lines[0]);
    assert_eq!("1 1 · · · · · · ·", lines[7]);
    assert_eq!("~ A B C D E F G H", lines[8]);
}
