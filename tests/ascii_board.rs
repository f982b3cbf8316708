use rusthello::{board_to_ascii, parse_response, Board, Choice, Player};

#[test]
fn board_to_ascii_produce_ascii_representation_of_a_board() {
    let expected = "+---+---+---+---+---+---+---+---+\n\
                         |   |   |   |   |   |   |   |   |\n\
                         +---+---+---+---+---+---+---+---+\n\
                         |   |   |   |   |   |   |   |   |\n\
                         +---+---+---+---+---+---+---+---+\n\
                         |   |   |   |   |   |   |   |   |\n\
                         +---+---+---+---+---+---+---+---+\n\
                         |   |   |   | O | X |   |   |   |\n\
                         +---+---+---+---+---+---+---+---+\n\
                         |   |   |   | X | O |   |   |   |\n\
                         +---+---+---+---+---+---+---+---+\n\
                         |   |   |   |   |   |   |   |   |\n\
                         +---+---+---+---+---+---+---+---+\n\
                         |   |   |   |   |   |   |   |   |\n\
                         +---+---+---+---+---+---+---+---+\n\
                         |   |   |   |   |   |   |   |   |\n\
                         +---+---+---+---+---+---+---+---+\n";

    let board = Board::new_start();
    let ascii = board_to_ascii(&board);
    assert_eq!(ascii, expected);
}

#[test]
fn board_to_ascii_marks_a_corner() {
    let mut board = Board::new();
    board.set_piece(7, 0, Some(Player::Black)).unwrap();
    let ascii = board_to_ascii(&board);
    let second_line = ascii.lines().nth(1).unwrap();
    assert_eq!(second_line, "|   |   |   |   |   |   |   | X |");
}

#[test]
fn parse_response_reads_moves_in_any_case() {
    assert_eq!(parse_response("c4".to_string()), Some(Choice::Move { x: 2, y: 3 }));
    assert_eq!(parse_response("C4".to_string()), Some(Choice::Move { x: 2, y: 3 }));
    assert_eq!(parse_response("a1".to_string()), Some(Choice::Move { x: 0, y: 0 }));
    assert_eq!(parse_response("H8".to_string()), Some(Choice::Move { x: 7, y: 7 }));
}

#[test]
fn parse_response_reads_quit() {
    assert_eq!(parse_response("q".to_string()), Some(Choice::Quit));
    assert_eq!(parse_response("Q".to_string()), Some(Choice::Quit));
}

#[test]
fn parse_response_rejects_other_text() {
    assert_eq!(parse_response("".to_string()), None);
    assert_eq!(parse_response("I1".to_string()), None);
    assert_eq!(parse_response("A9".to_string()), None);
    assert_eq!(parse_response("A0".to_string()), None);
    assert_eq!(parse_response("A12".to_string()), None);
    assert_eq!(parse_response("quit".to_string()), None);
}
