//! Game status (mobility, counts, end, winner) and the turn orchestrator.
use vstd::prelude::*;

use crate::board::{
    captured, captures_by, has_move, is_legal, lemma_board_len, lemma_counts, lemma_full_board_has_no_move,
    pieces, play_outcome, run_end, start_cells, Board, GameError, Player,
};

verus! {

broadcast use lemma_board_len;

/// Neither side has a legal move.
pub open spec fn game_over(s: Seq<Option<Player>>) -> bool {
    !has_move(s, Player::Black) && !has_move(s, Player::White)
}

/// The side with more pieces once the game is over; nobody before that, or on a draw.
pub open spec fn winner_of(s: Seq<Option<Player>>) -> Option<Player> {
    if !game_over(s) || pieces(s, Player::Black) == pieces(s, Player::White) {
        None
    } else if pieces(s, Player::Black) > pieces(s, Player::White) {
        Some(Player::Black)
    } else {
        Some(Player::White)
    }
}

/// Whose turn it is after `p` has moved: the opponent if they can move, else `p` again
/// if they can, else nobody.
pub open spec fn next_turn(s: Seq<Option<Player>>, p: Player) -> Option<Player> {
    if has_move(s, p.spec_opponent()) {
        Some(p.spec_opponent())
    } else if has_move(s, p) {
        Some(p)
    } else {
        None
    }
}

/// A turn fits a board when the side to move can move, and there is no side to move
/// exactly when the game is over.
pub open spec fn turn_fits(s: Seq<Option<Player>>, t: Option<Player>) -> bool {
    match t {
        None => game_over(s),
        Some(q) => has_move(s, q),
    }
}

/// A snapshot of mobility and piece counts, always computed afresh from a board.
pub(crate) struct GameStatus {
    pub(crate) black_can_move: bool,
    pub(crate) white_can_move: bool,
    pub(crate) black_pieces: u8,
    pub(crate) white_pieces: u8,
}

impl GameStatus {
    /// The snapshot holds the facts of board `s`.
    pub(crate) open spec fn describes(self, s: Seq<Option<Player>>) -> bool {
        &&& self.black_can_move == has_move(s, Player::Black)
        &&& self.white_can_move == has_move(s, Player::White)
        &&& self.black_pieces as int == pieces(s, Player::Black)
        &&& self.white_pieces as int == pieces(s, Player::White)
    }

    /// Computes the status of a board. A full board is known to leave nobody a move,
    /// so mobility is only probed on a board with an empty cell.
    pub(crate) fn evaluate_board(board: &Board) -> (r: Self)
        ensures
            r.describes(board@),
    {
        let mut black_can_move = false;
        let mut white_can_move = false;
        let (black_pieces, white_pieces) = board.count_pieces();
        proof {
            lemma_counts(board@, 64);
        }
        if black_pieces + white_pieces != 64 {
            black_can_move = Self::can_player_move(board, Player::Black);
            white_can_move = Self::can_player_move(board, Player::White);
        } else {
            proof {
                lemma_full_board_has_no_move(board@, Player::Black);
                lemma_full_board_has_no_move(board@, Player::White);
            }
        }
        GameStatus { black_can_move, white_can_move, black_pieces, white_pieces }
    }

    /// Probes every cell, in index order, for a legal move of `player`.
    pub(crate) fn can_player_move(board: &Board, player: Player) -> (r: bool)
        ensures
            r == has_move(board@, player),
    {
        let mut i: u8 = 0;
        while i < 64
            invariant
                i <= 64,
                forall|j: int| 0 <= j < i ==> !#[trigger] is_legal(board@, player, j / 8, j % 8),
            decreases 64 - i,
        {
            match board.play(player, i / 8, i % 8) {
                Ok(Some(_)) => {
                    return true;
                },
                _ => {},
            }
            i = i + 1;
        }
        false
    }

    /// The side `player` can move.
    pub(crate) fn can_move(&self, player: Player) -> (r: bool)
        ensures
            r == match player {
                Player::Black => self.black_can_move,
                Player::White => self.white_can_move,
            },
    {
        match player {
            Player::Black => self.black_can_move,
            Player::White => self.white_can_move,
        }
    }

    pub(crate) fn game_over(&self) -> (r: bool)
        ensures
            r == (!self.black_can_move && !self.white_can_move),
    {
        !self.black_can_move && !self.white_can_move
    }

    pub(crate) fn winner(&self) -> (r: Option<Player>)
        ensures
            forall|s: Seq<Option<Player>>| #[trigger] self.describes(s) ==> r == winner_of(s),
    {
        if !self.game_over() || self.black_pieces == self.white_pieces {
            None
        } else {
            if self.black_pieces > self.white_pieces {
                Some(Player::Black)
            } else {
                Some(Player::White)
            }
        }
    }
}

/// White has a move on the opening board: (3,5) captures (3,4) towards (3,3).
pub(crate) proof fn lemma_white_can_open()
    ensures
        has_move(start_cells(), Player::White),
{
    let s = start_cells();
    let p = Player::White;
    assert(run_end(s, p, 3, 5, 0, 2) == 2);
    assert(run_end(s, p, 3, 5, 0, 1) == 2);
    assert(captured(s, p, 3, 5, 0) == 1);
    assert(captures_by(s, p, 3, 5, 1));
    assert(captures_by(s, p, 3, 5, 2));
    assert(captures_by(s, p, 3, 5, 3));
    assert(captures_by(s, p, 3, 5, 4));
    assert(captures_by(s, p, 3, 5, 5));
    assert(captures_by(s, p, 3, 5, 6));
    assert(captures_by(s, p, 3, 5, 7));
    assert(captures_by(s, p, 3, 5, 8));
    assert(is_legal(s, p, 29int / 8, 29int % 8));
}

/// Black has a move on the opening board: (4,5) captures (4,4) towards (4,3).
pub(crate) proof fn lemma_black_can_open()
    ensures
        has_move(start_cells(), Player::Black),
{
    let s = start_cells();
    let p = Player::Black;
    assert(run_end(s, p, 4, 5, 0, 2) == 2);
    assert(run_end(s, p, 4, 5, 0, 1) == 2);
    assert(captured(s, p, 4, 5, 0) == 1);
    assert(captures_by(s, p, 4, 5, 1));
    assert(captures_by(s, p, 4, 5, 2));
    assert(captures_by(s, p, 4, 5, 3));
    assert(captures_by(s, p, 4, 5, 4));
    assert(captures_by(s, p, 4, 5, 5));
    assert(captures_by(s, p, 4, 5, 6));
    assert(captures_by(s, p, 4, 5, 7));
    assert(captures_by(s, p, 4, 5, 8));
    assert(is_legal(s, p, 37int / 8, 37int % 8));
}

/// An Othello game: a board, the side to move (none once the game is over) and the
/// status of the board. The turn advances with every accepted move, by the same rule
/// the search follows: to the opponent if they can move, else to the same side if it
/// can, else nobody.
pub struct Game {
    board: Board,
    player: Option<Player>,
    status: GameStatus,
}

impl Game {
    #[verifier::type_invariant]
    spec fn inv(self) -> bool {
        &&& self.status.describes(self.board@)
        &&& turn_fits(self.board@, self.player)
    }

    /// The cells of the game's board.
    pub closed spec fn cells(self) -> Seq<Option<Player>> {
        self.board@
    }

    /// The side to move.
    pub closed spec fn turn(self) -> Option<Player> {
        self.player
    }

    /// Creates a new standard game: the opening board, Black to move.
    pub fn new() -> (r: Game)
        ensures
            r.cells() == start_cells(),
            pieces(r.cells(), Player::Black) == 2,
            pieces(r.cells(), Player::White) == 2,
            r.turn() == Some(Player::Black),
    {
        let board = Board::new_start();
        proof {
            lemma_black_can_open();
        }
        Game { board, player: Some(Player::Black), status: GameStatus::evaluate_board(&board) }
    }

    /// Creates a game on a given board with `player` to move; if `player` cannot move the
    /// turn goes to the opponent, and if neither can the game is over.
    pub fn from_position(board: Board, player: Player) -> (r: Game)
        ensures
            r.cells() == board@,
            r.turn() == next_turn(board@, player.spec_opponent()),
    {
        let status = GameStatus::evaluate_board(&board);
        let turn = if status.can_move(player) {
            Some(player)
        } else if status.can_move(player.opponent()) {
            Some(player.opponent())
        } else {
            None
        };
        Game { board, player: turn, status }
    }

    /// Plays (x, y) for `player`. Fails once the game is over, when it is not `player`'s
    /// turn, off the board, and on an illegal move; a game that fails is left as it was.
    /// After a move the turn goes to the opponent if they can move, else stays, else the
    /// game is over.
    pub fn play(&mut self, player: Player, x: u8, y: u8) -> (r: Result<(), GameError>)
        ensures
            ({
                let s = old(self).cells();
                match old(self).turn() {
                    None => r == Err::<(), GameError>(GameError::GameOver),
                    Some(q) => if q != player {
                        r == Err::<(), GameError>(GameError::WrongTurn)
                    } else {
                        match play_outcome(s, player, x as int, y as int) {
                            Err(e) => r == Err::<(), GameError>(e),
                            Ok(None) => r == Err::<(), GameError>(GameError::InvalidMove),
                            Ok(Some(t)) => r is Ok && final(self).cells() == t
                                && final(self).turn() == next_turn(t, player),
                        }
                    },
                }
            }),
            r is Err ==> final(self).cells() == old(self).cells() && final(self).turn() == old(
                self,
            ).turn(),
    {
        match self.player {
            None => {
                return Err(GameError::GameOver);
            },
            Some(p) => {
                if p != player {
                    return Err(GameError::WrongTurn);
                }
            },
        }
        match self.board.play(player, x, y) {
            Err(e) => Err(e),
            Ok(None) => Err(GameError::InvalidMove),
            Ok(Some(new_board)) => {
                let status = GameStatus::evaluate_board(&new_board);
                let other = player.opponent();
                let turn = if status.can_move(other) {
                    Some(other)
                } else if status.can_move(player) {
                    Some(player)
                } else {
                    None
                };
                *self = Game { board: new_board, player: turn, status };
                Ok(())
            },
        }
    }

    /// The current board.
    pub fn board(&self) -> (r: &Board)
        ensures
            r@ == self.cells(),
    {
        &self.board
    }

    /// The side to move; `None` exactly when the game is over.
    pub fn player(&self) -> (r: Option<Player>)
        ensures
            r == self.turn(),
            r is None <==> game_over(self.cells()),
            r matches Some(q) ==> has_move(self.cells(), q),
    {
        proof {
            use_type_invariant(self);
        }
        self.player
    }

    /// The side to move can move, but its opponent could not have.
    pub fn opponent_is_blocked(&self) -> (r: bool)
        ensures
            r == (self.turn() matches Some(q) && !has_move(self.cells(), q.spec_opponent())),
    {
        proof {
            use_type_invariant(self);
        }
        match self.player {
            None => false,
            Some(p) => !self.status.can_move(p.opponent()),
        }
    }

    /// Neither side can move.
    pub fn game_over(&self) -> (r: bool)
        ensures
            r == game_over(self.cells()),
    {
        proof {
            use_type_invariant(self);
        }
        self.status.game_over()
    }

    /// The winner once the game is over, if piece counts differ.
    pub fn winner(&self) -> (r: Option<Player>)
        ensures
            r == winner_of(self.cells()),
    {
        proof {
            use_type_invariant(self);
        }
        self.status.winner()
    }

    /// The pieces on the board: (black, white).
    pub fn count_pieces(&self) -> (r: (u8, u8))
        ensures
            r.0 as int == pieces(self.cells(), Player::Black),
            r.1 as int == pieces(self.cells(), Player::White),
    {
        proof {
            use_type_invariant(self);
        }
        (self.status.black_pieces, self.status.white_pieces)
    }
}

/// A full board ends the game, whatever else holds.
pub proof fn lemma_full_board_is_over(s: Seq<Option<Player>>)
    requires
        s.len() == 64,
        pieces(s, Player::Black) + pieces(s, Player::White) == 64,
    ensures
        game_over(s),
        winner_of(s) == (if pieces(s, Player::Black) > pieces(s, Player::White) {
            Some(Player::Black)
        } else if pieces(s, Player::Black) < pieces(s, Player::White) {
            Some(Player::White)
        } else {
            None
        }),
{
    lemma_full_board_has_no_move(s, Player::Black);
    lemma_full_board_has_no_move(s, Player::White);
}

} // verus!
