use chess_bitboards::board::Board;
use chess_bitboards::fen::FenError;
use chess_bitboards::game::{Game, INITIAL_FEN};
use chess_bitboards::ply::{Colour, Movement, Piece};
use chess_bitboards::position::Position;
use chess_bitboards::square::{squares, Square};

fn sq(name: &str) -> u64 {
    Square::str_to_u8(name).unwrap()
}

#[test]
fn queen_on_open_file_gives_check() {
    let game = Game::try_from_fen("4k3/8/8/8/8/8/4Q3/4K3 b - - 0 1").unwrap();
    let board = game.last_position().board;
    assert!(board.black_king_is_in_check());
    assert!(!board.white_king_is_in_check());
}

#[test]
fn blocked_file_gives_no_check() {
    let game = Game::try_from_fen("4k3/4p3/8/8/8/8/4Q3/4K3 b - - 0 1").unwrap();
    assert!(!game.last_position().board.black_king_is_in_check());
}

#[test]
fn initial_fen_round_trip() {
    let game = Game::try_from_fen(INITIAL_FEN).unwrap();
    let board = game.last_position().board;
    assert_eq!(32, board.occupied_bb().count_ones());
    assert_eq!(16, board.white_bb().count_ones());
    assert_eq!(16, board.black_bb().count_ones());
    assert_eq!(INITIAL_FEN, game.as_fen());
    assert_eq!(1, game.mov);
    assert_eq!(1, game.ply);
}

#[test]
fn new_game_is_the_initial_position() {
    assert_eq!(INITIAL_FEN, Game::new().as_fen());
}

#[test]
fn fen_round_trip_with_en_passant_and_clocks() {
    let fen = "rnbqkbnr/pppppppp/8/8/4P3/8/PPPP1PPP/RNBQKBNR b KQkq e3 0 1";
    let game = Game::try_from_fen(fen).unwrap();
    assert_eq!(fen, game.as_fen());
    assert_eq!(Some(sq("e3")), game.last_position().en_passant_targ);
    assert_eq!(2, game.ply);
    let fen = "rnbqkbnr/pp1ppppp/8/2p5/3P4/5N2/PPP1PPPP/RNBQKB1R b Kq - 1 2";
    assert_eq!(fen, Game::try_from_fen(fen).unwrap().as_fen());
    let fen = "8/8/8/8/8/8/8/K6k w - - 49 123";
    let game = Game::try_from_fen(fen).unwrap();
    assert_eq!(fen, game.as_fen());
    assert_eq!(245, game.ply);
}

#[test]
fn placement_round_trip() {
    for p in [
        "rnbqkbnr/pppppppp/8/8/8/8/PPPPPPPP/RNBQKBNR",
        "8/8/8/8/8/8/8/8",
        "r3k2r/p1ppqpb1/bn2pnp1/3PN3/1p2P3/2N2Q1p/PPPBBPPP/R3K2R",
        "7k/8/8/8/8/8/8/K7",
    ] {
        let game = Game::try_from_fen(&format!("{p} w - - 0 1")).unwrap();
        assert_eq!(p, game.last_position().board.stringify());
    }
}

#[test]
fn fen_errors_are_typed() {
    let e = |f: &str| Game::try_from_fen(f).err();
    assert_eq!(Some(FenError::FieldCount), e("8/8/8/8/8/8/8/8 w - - 0"));
    assert_eq!(Some(FenError::Placement), e("8/8/8/8/8/8/8/7x w - - 0 1"));
    assert_eq!(Some(FenError::Placement), e("8/8/8/8/8/8/8 w - - 0 1"));
    assert_eq!(Some(FenError::Placement), e("9/8/8/8/8/8/8/8 w - - 0 1"));
    assert_eq!(Some(FenError::ActiveColour), e("8/8/8/8/8/8/8/8 x - - 0 1"));
    assert_eq!(Some(FenError::Castling), e("8/8/8/8/8/8/8/8 w KX - 0 1"));
    assert_eq!(Some(FenError::EnPassant), e("8/8/8/8/8/8/8/8 w - e9 0 1"));
    assert_eq!(Some(FenError::HalfMoveClock), e("8/8/8/8/8/8/8/8 w - - x 1"));
    assert_eq!(Some(FenError::HalfMoveClock), e("8/8/8/8/8/8/8/8 w - - 256 1"));
    assert_eq!(Some(FenError::FullMoveNumber), e("8/8/8/8/8/8/8/8 w - - 0 one"));
    assert_eq!(Some(FenError::FullMoveNumber), e("8/8/8/8/8/8/8/8 w - - 0 0"));
}

#[test]
fn piece_at_reads_the_masks() {
    let game = Game::new();
    let board = game.last_position().board;
    assert_eq!(Some((Piece::King, Colour::White)), board.piece_at(sq("e1")));
    assert_eq!(Some((Piece::Queen, Colour::Black)), board.piece_at(sq("d8")));
    assert_eq!(None, board.piece_at(sq("e4")));
    assert_eq!(Some((Piece::Pawn, Colour::White)), board.piece_at(0));
}

#[test]
fn moves_and_attacks_of_a_position() {
    let game = Game::try_from_fen("4k3/8/3p4/8/3R4/8/8/4K3 w - - 0 1").unwrap();
    let board = game.last_position().board;
    let rook = sq("d4");
    assert_eq!(sq("d6"), board.rook_attacks(rook, Colour::White));
    assert_eq!(0, board.rook_moves(rook) & sq("d6"));
    assert_eq!(11, board.rook_moves(rook).count_ones());
    assert_eq!(sq("d6"), board.all_rook_attacks(Colour::White));
    assert_eq!(sq("d6"), board.all_white_attacks());
    assert!(board.piece_is_attacked_by_white(Square::D6));
    assert!(!board.piece_is_attacked_by_black(Square::D4));
    assert_eq!(sq("e7") | sq("f7") | sq("e8") | sq("f8") | sq("d7") | sq("d8"), board.all_king_moves(Colour::Black) | sq("e8"));
}

#[test]
fn queen_attacks_include_both_slides() {
    let game = Game::try_from_fen("4k3/8/8/1p6/8/3Q4/8/4K3 w - - 0 1").unwrap();
    let board = game.last_position().board;
    assert_eq!(sq("b5"), board.queen_attacks(sq("d3"), Colour::White));
    assert_eq!(0, board.queen_moves(sq("d3")) & (sq("a6") | sq("b5")));
}

#[test]
fn square_names() {
    assert_eq!(Some(sq("e4")), squares("E4"));
    assert_eq!(None, Square::str_to_u8("i1"));
    assert_eq!(None, Square::str_to_u8("e44"));
    assert_eq!("e4", Square::bb_to_str(sq("e4")));
    assert_eq!(Square::H8.to_bb(), 1u64 << 63);
    assert_eq!(28, Square::from_bb(sq("e4")).idx());
}

#[test]
fn castling_and_moves_of_a_position() {
    let game = Game::try_from_fen("r3k2r/8/8/8/8/8/8/R3K2R w Kq - 0 1").unwrap();
    let pos: Position = *game.last_position();
    assert!(pos.colour_can_short_castle(Colour::White));
    assert!(!pos.colour_can_long_castle(Colour::White));
    assert!(pos.colour_can_long_castle(Colour::Black));
    assert!(!pos.colour_can_short_castle(Colour::Black));
    let promo = Movement::new(Colour::White, Piece::Pawn, Square::A7, Square::A8);
    assert!(Position::move_is_promotion(promo));
    let capture = Movement::new(Colour::White, Piece::Rook, Square::A1, Square::A8);
    assert!(pos.move_is_capture(capture));
    assert!(!pos.colour_is_in_check(Colour::White));
    let _ = Board::new();
}

#[test]
fn pins_along_files_and_diagonals() {
    let game = Game::try_from_fen("4k3/4r3/8/8/8/8/4B3/4K3 w - - 0 1").unwrap();
    let pos = game.last_position();
    assert!(pos.board.piece_is_pinned_to_king(Square::E2, true));
    assert!(pos.piece_is_pinned(Square::E2));
    assert!(!pos.piece_is_pinned(Square::E7));
    assert!(!pos.piece_is_pinned(Square::E4));

    let game = Game::try_from_fen("4k3/4r3/8/8/4P3/8/4B3/4K3 w - - 0 1").unwrap();
    assert!(!game.last_position().piece_is_pinned(Square::E2));

    let game = Game::try_from_fen("4k3/8/8/b7/8/8/3N4/4K3 w - - 0 1").unwrap();
    assert!(game.last_position().piece_is_pinned(Square::D2));

    let game = Game::try_from_fen("4k3/8/8/r7/8/8/3N4/4K3 w - - 0 1").unwrap();
    assert!(!game.last_position().piece_is_pinned(Square::D2));
}

#[test]
fn rook_attacks_stop_at_the_first_piece() {
    let game = Game::try_from_fen("8/8/8/r7/8/8/8/R6r w - - 0 1").unwrap();
    let board = game.last_position().board;
    let attacks = board.rook_attacks(sq("a1"), Colour::White);
    assert_eq!(sq("a5") | sq("h1"), attacks);
    let moves = board.rook_moves(sq("a1"));
    for name in ["a6", "a7", "a8", "a5", "h1"] {
        assert_eq!(0, moves & sq(name));
    }
    assert_eq!(9, moves.count_ones());
}
