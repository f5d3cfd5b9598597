use chess_bitboards::commands::{
    command_from_input, command_from_lowered, promotion_from_input, Command, PromotionAnswer,
};
use chess_bitboards::board::Mark;
use chess_bitboards::feedback::{feedback, read_movement, Feedback};
use chess_bitboards::game::Game;
use chess_bitboards::input::InputBuffer;
use chess_bitboards::ply::{Colour, Movement, Piece, PromotablePiece};
use chess_bitboards::square::Square;

fn sq(name: &str) -> u64 {
    Square::str_to_u8(name).unwrap()
}

#[test]
fn input_buffer_editing() {
    let mut b = InputBuffer::new();
    for c in "e2e4".chars() {
        b.insert_char(c);
    }
    b.left_char();
    b.left_char();
    b.insert_char(' ');
    assert_eq!("e2 e4", b.peak_trimmed());
    b.jump_start();
    b.delete();
    assert_eq!("2 e4", b.peak_trimmed());
    b.jump_end();
    b.backspace();
    assert_eq!(3, b.cursor);
    b.right_char();
    assert_eq!(3, b.cursor);
    b.jump_start();
    b.backspace();
    assert_eq!("2 e", b.take_raw());
    assert!(b.buffer.is_empty());
    assert_eq!(0, b.cursor);
}

#[test]
fn input_buffer_trimming() {
    let mut b = InputBuffer::new();
    for c in " \t quit \u{3000}".chars() {
        b.insert_char(c);
    }
    assert!(!b.is_only_whitespace());
    assert_eq!("quit", b.take_trimmed());
    assert!(b.is_only_whitespace());
    b.insert_char(' ');
    assert!(b.is_only_whitespace());
    b.clear();
    assert_eq!("", b.take_raw());
}

#[test]
fn commands_at_the_prompt() {
    assert_eq!(Command::Quit, command_from_input("QUIT"));
    assert_eq!(Command::Quit, command_from_input("  Exit "));
    assert_eq!(Command::Help, command_from_input("-H"));
    assert_eq!(Command::Draw, command_from_input("draw"));
    assert_eq!(Command::Surrender, command_from_input("Sur"));
    assert_eq!(Command::Move, command_from_input("e2 e4"));
    assert_eq!(Command::Move, command_from_lowered("QUIT"));
}

#[test]
fn promotion_answers() {
    assert_eq!(PromotionAnswer::Promote(PromotablePiece::Queen), promotion_from_input("Q"));
    assert_eq!(PromotionAnswer::Promote(PromotablePiece::Knight), promotion_from_input("n"));
    assert_eq!(PromotionAnswer::Abort, promotion_from_input("Exit"));
    assert_eq!(PromotionAnswer::Unknown, promotion_from_input("king"));
}

#[test]
fn playing_moves_updates_the_game() {
    let mut game = Game::new();
    let e4 = Movement::new(Colour::White, Piece::Pawn, Square::E2, Square::E4);
    let ply = game.validate_movement(e4).unwrap();
    assert!(!ply.is_capture);
    game.update(ply);
    assert_eq!("rnbqkbnr/pppppppp/8/8/4P3/8/PPPP1PPP/RNBQKBNR b KQkq e3 0 1", game.as_fen());
    assert_eq!(2, game.history.len());
    assert_eq!(2, game.ply);

    let nf6 = Movement::new(Colour::Black, Piece::Knight, Square::G8, Square::F6);
    game.update(game.validate_movement(nf6).unwrap());
    assert_eq!("rnbqkb1r/pppppppp/5n2/8/4P3/8/PPPP1PPP/RNBQKBNR w KQkq - 1 2", game.as_fen());
    assert_eq!(2, game.mov);
    assert_eq!(3, game.ply);

    let ke2 = Movement::new(Colour::White, Piece::King, Square::E1, Square::E2);
    game.update(game.validate_movement(ke2).unwrap());
    assert!(game.as_fen().contains(" b kq - 2 2"));
}

#[test]
fn invalid_movements_are_refused() {
    let game = Game::new();
    let wrong_piece = Movement::new(Colour::White, Piece::Knight, Square::E2, Square::E4);
    assert!(game.validate_movement(wrong_piece).is_none());
    let too_far = Movement::new(Colour::White, Piece::Pawn, Square::E2, Square::E5);
    assert!(game.validate_movement(too_far).is_none());
    let not_yours = Movement::new(Colour::White, Piece::Pawn, Square::E7, Square::E5);
    assert!(game.validate_movement(not_yours).is_none());
    let empty = Movement::new(Colour::White, Piece::Pawn, Square::E4, Square::E5);
    assert!(game.validate_movement(empty).is_none());
}

#[test]
fn captures_and_promotions_when_recorded() {
    let mut game = Game::try_from_fen("3qk3/4P3/8/8/8/8/8/4K3 w - - 7 40").unwrap();
    let take = Movement::new(Colour::White, Piece::Pawn, Square::E7, Square::D8);
    let mut ply = game.validate_movement(take).unwrap();
    assert!(ply.is_capture);
    ply.promotion = Some(PromotablePiece::Knight);
    game.update(ply);
    assert_eq!("3Nk3/8/8/8/8/8/8/4K3 b - - 0 40", game.as_fen());
}

#[test]
fn possible_moves_of_a_piece() {
    let game = Game::new();
    let board = game.last_position().board;
    let (attacks, moves) = board.possible_moves(Square::G1);
    assert_eq!(0, attacks);
    assert_eq!(sq("f3") | sq("h3"), moves);
    let (attacks, moves) = board.possible_moves(Square::E2);
    assert_eq!(0, attacks);
    assert_eq!(sq("e3") | sq("e4"), moves);
    assert_eq!((0, 0), board.possible_moves(Square::E4));
}

#[test]
fn board_cells_in_drawing_order() {
    let game = Game::new();
    let board = game.last_position().board;
    let cells = board.board_cells(true, sq("e7"), sq("e4"));
    assert_eq!(64, cells.len());
    assert_eq!(56, cells[0].square);
    assert_eq!(Some((Piece::Rook, Colour::Black)), cells[0].piece);
    assert_eq!(7, cells[63].square);
    assert_eq!(Mark::Attacked, cells[12].mark);
    assert_eq!(Mark::Reachable, cells[36].mark);
    assert_eq!(Mark::Plain, cells[35].mark);
    let cells = board.board_cells(false, 0, 0);
    assert_eq!(7, cells[0].square);
    assert_eq!(Some((Piece::Rook, Colour::White)), cells[0].piece);
    assert_eq!(56, cells[63].square);
}

#[test]
fn feedback_while_typing() {
    let game = Game::new();
    let b = game.last_position().board;
    let w = Colour::White;
    assert_eq!(Feedback::Nothing, feedback(&b, w, ""));
    assert_eq!(Feedback::Nothing, feedback(&b, w, "xyz"));
    assert_eq!(Feedback::DrawTooEarly { shown: None }, feedback(&b, w, "draw"));
    assert_eq!(Feedback::DrawTooEarly { shown: Some(12) }, feedback(&b, w, "e2 draw"));
    assert_eq!(Feedback::DrawTooEarly { shown: None }, feedback(&b, w, "draw e7"));
    assert_eq!(Feedback::Moves(12), feedback(&b, w, "  e2 "));
    assert_eq!(Feedback::NotYours(Piece::Pawn, 52), feedback(&b, w, "e7"));
    assert_eq!(Feedback::NoPiece(28), feedback(&b, w, "e4"));
    assert_eq!(Feedback::UnknownInput { shown: None, word: 0 }, feedback(&b, w, "zz e4"));
    assert_eq!(Feedback::UnknownInput { shown: Some(12), word: 1 }, feedback(&b, w, "e2 zz"));
    assert_eq!(Feedback::MoveTo(12, Piece::Pawn, 28), feedback(&b, w, "e2 e4"));
    assert_eq!(Feedback::NoPiece(28), feedback(&b, w, "e4 e5"));
    assert_eq!(Feedback::NotYours(Piece::Pawn, 52), feedback(&b, w, "e7 e5"));
    assert_eq!(Feedback::OwnTarget(12), feedback(&b, w, "e2 d1"));
    assert_eq!(Feedback::InvalidAttack(12), feedback(&b, w, "e2 e7"));
    assert_eq!(Feedback::Nothing, feedback(&b, w, "a b c"));
    let game = Game::try_from_fen("4k3/8/8/3p4/4P3/8/8/4K3 w - - 0 1").unwrap();
    let b = game.last_position().board;
    assert_eq!(Feedback::Takes(28, Piece::Pawn, Piece::Pawn), feedback(&b, w, "e4 d5"));
    assert_eq!(Feedback::Nothing, feedback(&b, w, "d5 e4"));
}

#[test]
fn reading_typed_movements() {
    let game = Game::new();
    let b = game.last_position().board;
    let m = read_movement(&b, Colour::White, " e2  e4 ").unwrap();
    assert_eq!(Piece::Pawn, m.piece);
    assert_eq!(12, m.from_sq.idx());
    assert_eq!(28, m.to_sq.idx());
    assert!(read_movement(&b, Colour::White, "e4 e5").is_none());
    assert!(read_movement(&b, Colour::White, "e2").is_none());
    assert!(read_movement(&b, Colour::White, "e2 e9").is_none());
    let m = read_movement(&b, Colour::Black, "G8 f6").unwrap();
    assert_eq!(Piece::Knight, m.piece);
}
