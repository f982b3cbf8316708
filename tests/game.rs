use rusthello::{Board, Game, GameError, Player};

fn full_board(piece_at: impl Fn(u8, u8) -> Player) -> Board {
    let mut board = Board::new();
    for x in 0..8u8 {
        for y in 0..8u8 {
            board.set_piece(x, y, Some(piece_at(x, y))).unwrap();
        }
    }
    board
}

#[test]
fn game_over_not_for_a_new_game() {
    let game = Game::new();
    assert!(!game.game_over())
}

#[test]
fn game_over_if_all_cells_are_occupied() {
    let board = full_board(|_, _| Player::Black);
    let game = Game::from_position(board, Player::Black);
    assert!(game.game_over());
}

#[test]
fn game_over_if_none_of_the_players_can_move() {
    let mut board = Board::new();
    board.set_piece(0, 0, Some(Player::Black)).unwrap();
    board.set_piece(7, 7, Some(Player::White)).unwrap();
    let game = Game::from_position(board, Player::Black);
    assert!(game.game_over());
}

#[test]
fn no_winner_for_a_new_game() {
    let game = Game::new();
    assert!(game.winner().is_none())
}

#[test]
fn no_winner_if_pieces_counts_are_equals() {
    let board_50_50 = full_board(|x, _| if x % 2 == 0 { Player::Black } else { Player::White });
    let game = Game::from_position(board_50_50, Player::Black);
    assert!(game.winner().is_none())
}

#[test]
fn winner_if_no_one_can_move_and_one_has_more_pieces() {
    let unicolor_board = full_board(|_, _| Player::Black);
    let game = Game::from_position(unicolor_board, Player::Black);
    assert_eq!(game.winner(), Some(Player::Black));
}

#[test]
fn count_pieces() {
    let game = Game::new();
    assert_eq!(game.count_pieces(), (2, 2));
}

#[test]
fn new_game_black_to_move() {
    let game = Game::new();
    assert_eq!(game.player(), Some(Player::Black));
    assert!(!game.opponent_is_blocked());
    assert_eq!(game.board().to_text(), Board::new_start().to_text());
}

#[test]
fn white_wins_a_full_board_with_more_white() {
    let board = full_board(|x, y| if x == 0 && y < 3 { Player::Black } else { Player::White });
    let game = Game::from_position(board, Player::White);
    assert!(game.game_over());
    assert_eq!(game.player(), None);
    assert_eq!(game.count_pieces(), (3, 61));
    assert_eq!(game.winner(), Some(Player::White));
}

#[test]
fn game_not_over_while_one_side_can_move() {
    // Black (0,0), White (1,0): Black can play (2,0), White has no move.
    let mut board = Board::new();
    board.set_piece(0, 0, Some(Player::Black)).unwrap();
    board.set_piece(1, 0, Some(Player::White)).unwrap();
    let game = Game::from_position(board, Player::White);
    assert!(!game.game_over());
    assert!(game.winner().is_none());
    // White cannot move, so the turn goes to Black.
    assert_eq!(game.player(), Some(Player::Black));
}

#[test]
fn play_advances_the_turn() {
    let mut game = Game::new();
    assert_eq!(game.play(Player::Black, 4, 5), Ok(()));
    assert_eq!(game.player(), Some(Player::White));
    assert_eq!(game.count_pieces(), (4, 1));
    assert_eq!(game.board().get_piece(4, 4).unwrap(), Some(Player::Black));
}

#[test]
fn play_keeps_the_turn_when_the_opponent_is_blocked() {
    // Black (0,0), White (1,0), (3,0), Black (4,0) -> Black plays (2,0) and takes all.
    let mut board = Board::new();
    board.set_piece(0, 0, Some(Player::Black)).unwrap();
    board.set_piece(1, 0, Some(Player::White)).unwrap();
    board.set_piece(3, 0, Some(Player::White)).unwrap();
    board.set_piece(4, 0, Some(Player::Black)).unwrap();
    board.set_piece(0, 6, Some(Player::White)).unwrap();
    board.set_piece(0, 7, Some(Player::Black)).unwrap();
    let mut game = Game::from_position(board, Player::Black);
    assert_eq!(game.player(), Some(Player::Black));
    assert_eq!(game.play(Player::Black, 2, 0), Ok(()));
    assert_eq!(game.count_pieces(), (6, 1));
    // White's only piece (0,6) cannot capture; Black can still play (0,5).
    assert_eq!(game.player(), Some(Player::Black));
    assert!(game.opponent_is_blocked());
}

#[test]
fn play_rejects_the_wrong_player() {
    let mut game = Game::new();
    assert_eq!(game.play(Player::White, 3, 5), Err(GameError::WrongTurn));
    assert_eq!(game.count_pieces(), (2, 2));
    assert_eq!(game.player(), Some(Player::Black));
}

#[test]
fn play_rejects_an_invalid_move() {
    let mut game = Game::new();
    assert_eq!(game.play(Player::Black, 0, 0), Err(GameError::InvalidMove));
    assert_eq!(game.play(Player::Black, 3, 3), Err(GameError::InvalidMove));
    assert_eq!(game.count_pieces(), (2, 2));
}

#[test]
fn play_rejects_out_of_range() {
    let mut game = Game::new();
    assert_eq!(game.play(Player::Black, 8, 0), Err(GameError::OutOfRange));
    assert_eq!(game.count_pieces(), (2, 2));
}

#[test]
fn play_rejects_moves_after_the_end() {
    let board = full_board(|_, _| Player::White);
    let mut game = Game::from_position(board, Player::Black);
    assert_eq!(game.play(Player::Black, 0, 0), Err(GameError::GameOver));
    assert_eq!(game.play(Player::White, 0, 0), Err(GameError::GameOver));
}
