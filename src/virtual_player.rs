//! Move selection: a positional evaluator and a fixed-depth minimax search.
use vstd::prelude::*;

use crate::board::{after_move, has_move, is_legal, lemma_board_len, start_cells, Board, Player};
use crate::game::{
    game_over, lemma_black_can_open, lemma_white_can_open, winner_of, GameStatus,
};

verus! {

broadcast use lemma_board_len;

/// Score of a game won (signed for the winner).
pub const SCORE_MAX: i32 = i32::MAX;

/// Score of a drawn game.
pub const SCORE_DRAW: i32 = 0;

/// Bonus for the last mover when the opponent cannot move next.
pub const SCORE_OPPONENT_BLOCKED: i32 = 4;

/// Weight of a piece that is neither on a corner nor on a border.
pub const SCORE_INSIDE: i32 = 1;

/// Weight of a piece on a border but not on a corner.
pub const SCORE_BORDER: i32 = 4;

/// Weight of a piece on a corner.
pub const SCORE_CORNER: i32 = 8;

/// `v` as seen from Black: kept for Black, negated for White.
pub open spec fn signed(p: Player, v: int) -> int {
    match p {
        Player::Black => v,
        Player::White => -v,
    }
}

pub open spec fn is_corner(x: int, y: int) -> bool {
    (x == 0 || x == 7) && (y == 0 || y == 7)
}

pub open spec fn is_border(x: int, y: int) -> bool {
    x == 0 || x == 7 || y == 0 || y == 7
}

/// The positional weight of cell (x, y).
pub open spec fn weight(x: int, y: int) -> int {
    if is_corner(x, y) {
        SCORE_CORNER as int
    } else if is_border(x, y) {
        SCORE_BORDER as int
    } else {
        SCORE_INSIDE as int
    }
}

/// The signed weights of the pieces among the first `n` cells.
pub open spec fn position_score(s: Seq<Option<Player>>, n: int) -> int
    decreases n,
{
    if n <= 0 {
        0
    } else {
        position_score(s, n - 1) + match s[n - 1] {
            Some(q) => signed(q, weight((n - 1) / 8, (n - 1) % 8)),
            None => 0,
        }
    }
}

/// How good board `s` is for Black (positive) or White (negative), `last` having just
/// moved: the winner's maximum or a draw's zero once the game is over, else the signed
/// piece weights plus a bonus for `last` when the opponent is blocked.
pub open spec fn evaluation(s: Seq<Option<Player>>, last: Player) -> int {
    if game_over(s) {
        match winner_of(s) {
            Some(w) => signed(w, SCORE_MAX as int),
            None => SCORE_DRAW as int,
        }
    } else {
        position_score(s, 64) + if !has_move(s, last.spec_opponent()) {
            signed(last, SCORE_OPPONENT_BLOCKED as int)
        } else {
            0
        }
    }
}

/// The signed weights over the first `n` cells of the opening board.
proof fn lemma_start_position_score(n: int)
    requires
        0 <= n <= 64,
    ensures
        position_score(start_cells(), n) == if n > 36 {
            0int
        } else if n > 35 {
            1int
        } else if n > 28 {
            0int
        } else if n > 27 {
            -1int
        } else {
            0int
        },
    decreases n,
{
    if n > 0 {
        lemma_start_position_score(n - 1);
    }
}

/// The opening position is balanced: it evaluates to zero, whoever moved last.
pub proof fn lemma_start_is_balanced(last: Player)
    ensures
        evaluation(start_cells(), last) == 0,
{
    lemma_black_can_open();
    lemma_white_can_open();
    lemma_start_position_score(64);
}

/// Of two candidates (x, y, evaluation), the one better for `p`; a tie keeps `a`.
pub open spec fn prefer(p: Player, a: Option<(int, int, int)>, b: Option<(int, int, int)>) -> Option<
    (int, int, int),
> {
    match (a, b) {
        (None, _) => b,
        (_, None) => a,
        (Some(ma), Some(mb)) => if signed(p, mb.2) > signed(p, ma.2) {
            b
        } else {
            a
        },
    }
}

/// The evaluation carried by a candidate.
pub open spec fn line_value(m: Option<(int, int, int)>) -> int {
    match m {
        Some(m) => m.2,
        None => 0,
    }
}

/// The best candidate for `p` on `s` at ply `ply` of a search `max` plies deep.
pub open spec fn search_best(s: Seq<Option<Player>>, p: Player, ply: int, max: int) -> Option<
    (int, int, int),
>
    decreases max - ply, 65int,
{
    best_among(s, p, ply, max, 64)
}

/// The best candidate among cells 0 .. n; earlier cells win ties.
pub open spec fn best_among(s: Seq<Option<Player>>, p: Player, ply: int, max: int, n: int) -> Option<
    (int, int, int),
>
    decreases max - ply, n,
{
    if n <= 0 {
        None
    } else {
        prefer(p, best_among(s, p, ply, max, n - 1), candidate(s, p, ply, max, n - 1))
    }
}

/// The candidate of cell `i` (x = i / 8, y = i % 8): none for an illegal move; else the
/// evaluation of the board after the move at the last ply or when nobody can move on,
/// and otherwise the evaluation of the best line of the side to move next.
pub open spec fn candidate(s: Seq<Option<Player>>, p: Player, ply: int, max: int, i: int) -> Option<
    (int, int, int),
>
    decreases max - ply, 0int,
{
    let x = i / 8;
    let y = i % 8;
    if !is_legal(s, p, x, y) {
        None
    } else {
        let t = after_move(s, p, x, y);
        if ply >= max {
            Some((x, y, evaluation(t, p)))
        } else if has_move(t, p.spec_opponent()) {
            Some((x, y, line_value(search_best(t, p.spec_opponent(), ply + 1, max))))
        } else if has_move(t, p) {
            Some((x, y, line_value(search_best(t, p, ply + 1, max))))
        } else {
            Some((x, y, evaluation(t, p)))
        }
    }
}

/// A heuristic scoring of board positions.
pub struct Evaluator;

impl Evaluator {
    /// Scores `board` for Black (positive) or White (negative), `last_player` having just moved.
    pub fn evaluate(board: &Board, last_player: Player) -> (r: i32)
        ensures
            r as int == evaluation(board@, last_player),
            r > i32::MIN,
    {
        let status = GameStatus::evaluate_board(board);
        if status.game_over() {
            return match status.winner() {
                Some(winner) => Self::sign_for_player(winner, SCORE_MAX),
                None => SCORE_DRAW,
            };
        }
        let mut score: i32 = 0;
        let mut i: u8 = 0;
        while i < 64
            invariant
                i <= 64,
                board@.len() == 64,
                score as int == position_score(board@, i as int),
                -8 * i <= score <= 8 * i,
            decreases 64 - i,
        {
            let x = i / 8;
            let y = i % 8;
            match board.get_piece(x, y) {
                Ok(Some(player)) => {
                    if Self::corner(x, y) {
                        score = score + Self::sign_for_player(player, SCORE_CORNER);
                    } else if Self::border(x, y) {
                        score = score + Self::sign_for_player(player, SCORE_BORDER);
                    } else {
                        score = score + Self::sign_for_player(player, SCORE_INSIDE);
                    }
                },
                _ => {},
            }
            i = i + 1;
        }
        if !status.can_move(last_player.opponent()) {
            score = score + Self::sign_for_player(last_player, SCORE_OPPONENT_BLOCKED);
        }
        score
    }

    /// `count` as seen from Black.
    fn sign_for_player(player: Player, count: i32) -> (r: i32)
        requires
            count > i32::MIN,
        ensures
            r as int == signed(player, count as int),
    {
        match player {
            Player::Black => count,
            Player::White => -count,
        }
    }

    fn corner(x: u8, y: u8) -> (r: bool)
        ensures
            r == is_corner(x as int, y as int),
    {
        (x == 0 || x == 7) && (y == 0 || y == 7)
    }

    fn border(x: u8, y: u8) -> (r: bool)
        ensures
            r == is_border(x as int, y as int),
    {
        x == 0 || x == 7 || y == 0 || y == 7
    }
}

/// A strategy that picks a move for a side on a board.
pub trait VirtualPlayer {
    /// The move picked for `me` on board `s`.
    spec fn choice(&self, s: Seq<Option<Player>>, me: Player) -> Option<(int, int)>;

    /// Picks a legal move for `me`, or `None` when `me` has none.
    fn compute_move(&self, board: &Board, me: Player) -> (r: Option<(u8, u8)>)
        ensures
            r is Some <==> has_move(board@, me),
            r matches Some(m) ==> m.0 < 8 && m.1 < 8 && is_legal(board@, me, m.0 as int, m.1 as int),
            match r {
                Some(m) => self.choice(board@, me) == Some((m.0 as int, m.1 as int)),
                None => self.choice(board@, me) is None,
            },
    ;
}

/// A candidate move of the search: the root move and the evaluation of its line.
struct BestMove {
    x: u8,
    y: u8,
    evaluation: i32,
}

spec fn best_view(m: Option<BestMove>) -> Option<(int, int, int)> {
    match m {
        Some(m) => Some((m.x as int, m.y as int, m.evaluation as int)),
        None => None,
    }
}

/// Fixed-depth minimax search.
pub struct Minimax {
    depth: u8,
}

impl Minimax {
    #[verifier::type_invariant]
    spec fn inv(self) -> bool {
        self.depth >= 1
    }

    /// How many plies the search looks ahead.
    pub closed spec fn max_depth(self) -> int {
        self.depth as int
    }

    /// A search `depth` plies deep.
    pub fn new(depth: u8) -> (r: Self)
        requires
            depth >= 1,
        ensures
            r.max_depth() == depth,
    {
        Self { depth }
    }

    /// The best candidate for `current_player` on `board` at ply `depth`.
    fn inner_compute_move(&self, board: &Board, current_player: Player, depth: u8) -> (r: Option<
        BestMove,
    >)
        requires
            1 <= depth <= self.depth,
        ensures
            best_view(r) == search_best(board@, current_player, depth as int, self.depth as int),
            r is Some <==> has_move(board@, current_player),
            r matches Some(m) ==> m.x < 8 && m.y < 8 && is_legal(
                board@,
                current_player,
                m.x as int,
                m.y as int,
            ) && m.evaluation > i32::MIN,
        decreases self.depth - depth,
    {
        let mut best: Option<BestMove> = None;
        let mut i: u8 = 0;
        while i < 64
            invariant
                i <= 64,
                1 <= depth <= self.depth,
                best_view(best) == best_among(
                    board@,
                    current_player,
                    depth as int,
                    self.depth as int,
                    i as int,
                ),
                best is Some <==> exists|j: int|
                    0 <= j < i && #[trigger] is_legal(board@, current_player, j / 8, j % 8),
                best matches Some(m) ==> m.x < 8 && m.y < 8 && is_legal(
                    board@,
                    current_player,
                    m.x as int,
                    m.y as int,
                ) && m.evaluation > i32::MIN,
            decreases 64 - i,
        {
            let x = i / 8;
            let y = i % 8;
            match board.play(current_player, x, y) {
                Ok(Some(after)) => {
                    let other = current_player.opponent();
                    let evaluation = if depth == self.depth {
                        Evaluator::evaluate(&after, current_player)
                    } else if GameStatus::can_player_move(&after, other) {
                        match self.inner_compute_move(&after, other, depth + 1) {
                            Some(m) => m.evaluation,
                            None => SCORE_DRAW,
                        }
                    } else if GameStatus::can_player_move(&after, current_player) {
                        match self.inner_compute_move(&after, current_player, depth + 1) {
                            Some(m) => m.evaluation,
                            None => SCORE_DRAW,
                        }
                    } else {
                        Evaluator::evaluate(&after, current_player)
                    };
                    assert(best_view(Some(BestMove { x, y, evaluation })) == candidate(
                        board@,
                        current_player,
                        depth as int,
                        self.depth as int,
                        i as int,
                    ));
                    best =
                    Self::best_move_for_player(
                        current_player,
                        best,
                        Some(BestMove { x, y, evaluation }),
                    );
                },
                _ => {
                    assert(candidate(
                        board@,
                        current_player,
                        depth as int,
                        self.depth as int,
                        i as int,
                    ) is None);
                },
            }
            i = i + 1;
        }
        best
    }

    /// Keeps `move_a` unless `move_b` is strictly better for `current_player`.
    fn best_move_for_player(
        current_player: Player,
        move_a: Option<BestMove>,
        move_b: Option<BestMove>,
    ) -> (r: Option<BestMove>)
        requires
            move_a matches Some(m) ==> m.evaluation > i32::MIN,
            move_b matches Some(m) ==> m.evaluation > i32::MIN,
        ensures
            best_view(r) == prefer(current_player, best_view(move_a), best_view(move_b)),
            r == move_a || r == move_b,
    {
        match (&move_a, &move_b) {
            (None, _) => move_b,
            (_, None) => move_a,
            (Some(a), Some(b)) => {
                let eval_a = Evaluator::sign_for_player(current_player, a.evaluation);
                let eval_b = Evaluator::sign_for_player(current_player, b.evaluation);
                if eval_b > eval_a {
                    move_b
                } else {
                    move_a
                }
            },
        }
    }
}

impl VirtualPlayer for Minimax {
    open spec fn choice(&self, s: Seq<Option<Player>>, me: Player) -> Option<(int, int)> {
        match search_best(s, me, 1, self.max_depth()) {
            Some(m) => Some((m.0, m.1)),
            None => None,
        }
    }

    fn compute_move(&self, board: &Board, me: Player) -> (r: Option<(u8, u8)>) {
        proof {
            use_type_invariant(self);
        }
        match self.inner_compute_move(board, me, 1) {
            Some(m) => Some((m.x, m.y)),
            None => None,
        }
    }
}

} // verus!
