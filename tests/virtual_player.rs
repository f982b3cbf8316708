use rusthello::{Board, Evaluator, Minimax, Player, VirtualPlayer};

#[test]
fn evaluate_returns_zero_for_equals_forces() {
    let board = Board::new_start();
    assert_eq!(0, Evaluator::evaluate(&board, Player::Black));
}

#[test]
fn evaluate_returns_positive_score_if_black_is_stronger() {
    let board = Board::new_start();
    let board = board.play(Player::Black, 4, 5).unwrap().unwrap();
    assert!(Evaluator::evaluate(&board, Player::Black) > 0);
}

#[test]
fn evaluate_returns_negative_score_if_white_is_stronger() {
    let mut board = Board::new_start();
    board.set_piece(3, 4, Some(Player::White)).unwrap();
    assert!(Evaluator::evaluate(&board, Player::Black) < 0);
}

#[test]
fn minimax_find_a_move() {
    let board = Board::new_start();
    let minimax = Minimax::new(4);
    let best_move = minimax.compute_move(&board, Player::Black);
    assert!(best_move.is_some());
}

#[test]
fn minimax_find_the_best_move() {
    let mut board = Board::new();
    board.set_piece(2, 2, Some(Player::White)).unwrap();
    board.set_piece(3, 2, Some(Player::Black)).unwrap();
    board.set_piece(2, 3, Some(Player::White)).unwrap();
    board.set_piece(3, 3, Some(Player::Black)).unwrap();
    board.set_piece(4, 3, Some(Player::Black)).unwrap();
    let minimax = Minimax::new(1);
    let best_move = minimax.compute_move(&board, Player::White);
    assert_eq!(best_move, Some((5, 3)));
}

#[test]
fn evaluate_exact_value_after_a_capture() {
    // Black (3,4), (4,3), (4,4), (4,5); White (3,3): all inner cells.
    let board = Board::new_start().play(Player::Black, 4, 5).unwrap().unwrap();
    assert_eq!(Evaluator::evaluate(&board, Player::Black), 3);
}

#[test]
fn evaluate_white_capture_is_negative() {
    let board = Board::new_start().play(Player::White, 3, 5).unwrap().unwrap();
    assert_eq!(Evaluator::evaluate(&board, Player::White), -3);
    assert!(Evaluator::evaluate(&board, Player::White) < 0);
}

#[test]
fn evaluate_weights_corners_borders_and_blocked_opponent() {
    // Black corner (0,0) = +8, White border (1,0) = -4; White cannot move: +4 for Black.
    let mut board = Board::new();
    board.set_piece(0, 0, Some(Player::Black)).unwrap();
    board.set_piece(1, 0, Some(Player::White)).unwrap();
    assert_eq!(Evaluator::evaluate(&board, Player::Black), 8);
    // Seen with White as the last mover, Black can move: no bonus.
    assert_eq!(Evaluator::evaluate(&board, Player::White), 4);
}

#[test]
fn evaluate_finished_games() {
    let mut black = Board::new();
    let mut draw = Board::new();
    for x in 0..8u8 {
        for y in 0..8u8 {
            black.set_piece(x, y, Some(Player::Black)).unwrap();
            let piece = if y < 4 { Player::Black } else { Player::White };
            draw.set_piece(x, y, Some(piece)).unwrap();
        }
    }
    assert_eq!(Evaluator::evaluate(&black, Player::White), i32::MAX);
    assert_eq!(Evaluator::evaluate(&draw, Player::Black), 0);
}

#[test]
fn minimax_without_legal_move_gives_none() {
    let mut board = Board::new();
    board.set_piece(0, 0, Some(Player::Black)).unwrap();
    board.set_piece(1, 0, Some(Player::White)).unwrap();
    assert_eq!(Minimax::new(3).compute_move(&board, Player::White), None);
    assert_eq!(Minimax::new(3).compute_move(&board, Player::Black), Some((2, 0)));
}

#[test]
fn minimax_picks_a_legal_move_at_depth_two() {
    let board = Board::new_start();
    let (x, y) = Minimax::new(2).compute_move(&board, Player::White).unwrap();
    assert!(board.play(Player::White, x, y).unwrap().is_some());
}

#[test]
fn minimax_ties_keep_the_first_cell() {
    // From the start every Black move scores 3 at depth 1: the first in x-major order wins.
    let board = Board::new_start();
    assert_eq!(Minimax::new(1).compute_move(&board, Player::Black), Some((2, 3)));
}
