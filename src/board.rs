//! The board: cell contents, bounds-checked access, rays and the capture move.
use vstd::prelude::*;

verus! {

/// The two sides of a game.
#[derive(Copy, Clone, Debug, PartialEq, Eq, Structural)]
pub enum Player {
    Black,
    White,
}

/// What can go wrong when reading, writing or playing on a board, or in a game.
#[derive(Copy, Clone, Debug, PartialEq, Eq, Structural)]
pub enum GameError {
    /// A coordinate (or a heading component) lies outside the board.
    OutOfRange,
    /// The target cell is occupied or the move captures nothing.
    InvalidMove,
    /// The player who tried to move is not the one whose turn it is.
    WrongTurn,
    /// Nobody can move any more.
    GameOver,
}

impl Player {
    pub open spec fn spec_opponent(self) -> Player {
        match self {
            Player::Black => Player::White,
            Player::White => Player::Black,
        }
    }

    /// Returns the opponent of the player.
    pub fn opponent(self) -> (r: Player)
        ensures
            r == self.spec_opponent(),
    {
        if self == Player::Black {
            Player::White
        } else {
            Player::Black
        }
    }
}

// ---------------------------------------------------------------------------
// The mathematical model of a board: 64 cells, cell (x, y) at index x * 8 + y.
// ---------------------------------------------------------------------------

pub open spec fn in_bounds(x: int, y: int) -> bool {
    0 <= x < 8 && 0 <= y < 8
}

/// The content of cell (x, y).
pub open spec fn cell(s: Seq<Option<Player>>, x: int, y: int) -> Option<Player> {
    s[x * 8 + y]
}

/// A board with no piece at all.
pub open spec fn empty_cells() -> Seq<Option<Player>> {
    Seq::new(64, |k: int| None::<Player>)
}

/// The opening position: (3,3) and (4,4) White, (3,4) and (4,3) Black.
pub open spec fn start_cells() -> Seq<Option<Player>> {
    Seq::new(
        64,
        |k: int|
            if k == 3 * 8 + 3 || k == 4 * 8 + 4 {
                Some(Player::White)
            } else if k == 3 * 8 + 4 || k == 4 * 8 + 3 {
                Some(Player::Black)
            } else {
                None
            },
    )
}

/// Horizontal component of heading `d`; the eight headings go clockwise from (0, -1).
pub open spec fn dir_x(d: int) -> int {
    if d == 1 || d == 2 || d == 3 {
        1
    } else if d == 5 || d == 6 || d == 7 {
        -1
    } else {
        0
    }
}

/// Vertical component of heading `d`.
pub open spec fn dir_y(d: int) -> int {
    if d == 0 || d == 1 || d == 7 {
        -1
    } else if d == 3 || d == 4 || d == 5 {
        1
    } else {
        0
    }
}

/// `k` times the unit component `u`.
pub open spec fn offset(k: int, u: int) -> int {
    if u == 0 {
        0
    } else if u > 0 {
        k
    } else {
        -k
    }
}

/// The cell `k` steps away from (x, y) along heading `d`.
pub open spec fn ray_step(x: int, y: int, d: int, k: int) -> (int, int) {
    (x + offset(k, dir_x(d)), y + offset(k, dir_y(d)))
}

/// How many steps along heading `d` separate (x, y) from (i, j), if (i, j) is on that ray.
pub open spec fn steps_to(x: int, y: int, d: int, i: int, j: int) -> int {
    if dir_x(d) > 0 {
        i - x
    } else if dir_x(d) < 0 {
        x - i
    } else if dir_y(d) > 0 {
        j - y
    } else {
        y - j
    }
}

/// (i, j) is on the ray from (x, y) along `d`, at a step in `lo .. hi`.
pub open spec fn on_ray_between(x: int, y: int, d: int, lo: int, hi: int, i: int, j: int) -> bool {
    let k = steps_to(x, y, d, i, j);
    lo <= k < hi && (i, j) == ray_step(x, y, d, k)
}

/// The first step, from step `k` on, along `d` that is not an opponent's piece on the board.
pub open spec fn run_end(s: Seq<Option<Player>>, p: Player, x: int, y: int, d: int, k: int) -> int
    decreases 8 - k,
{
    if k < 8 && in_bounds(ray_step(x, y, d, k).0, ray_step(x, y, d, k).1) && cell(
        s,
        ray_step(x, y, d, k).0,
        ray_step(x, y, d, k).1,
    ) == Some(p.spec_opponent()) {
        run_end(s, p, x, y, d, k + 1)
    } else {
        k
    }
}

/// How many opponent pieces `p` captures along `d` by playing at (x, y): the run of
/// opponent pieces next to (x, y), if a piece of `p` closes it, else none.
pub open spec fn captured(s: Seq<Option<Player>>, p: Player, x: int, y: int, d: int) -> int {
    let e = run_end(s, p, x, y, d, 1);
    if e > 1 && in_bounds(ray_step(x, y, d, e).0, ray_step(x, y, d, e).1) && cell(
        s,
        ray_step(x, y, d, e).0,
        ray_step(x, y, d, e).1,
    ) == Some(p) {
        e - 1
    } else {
        0
    }
}

/// Cell (i, j) is flipped along heading `d` when `p` plays at (x, y).
pub open spec fn flipped_along(
    s: Seq<Option<Player>>,
    p: Player,
    x: int,
    y: int,
    d: int,
    i: int,
    j: int,
) -> bool {
    on_ray_between(x, y, d, 1, captured(s, p, x, y, d) + 1, i, j)
}

/// Cell (i, j) is flipped along one of the first `n` headings.
pub open spec fn flipped_by(
    s: Seq<Option<Player>>,
    p: Player,
    x: int,
    y: int,
    n: int,
    i: int,
    j: int,
) -> bool
    decreases n,
{
    if n <= 0 {
        false
    } else {
        flipped_by(s, p, x, y, n - 1, i, j) || flipped_along(s, p, x, y, n - 1, i, j)
    }
}

/// One of the first `n` headings captures something.
pub open spec fn captures_by(s: Seq<Option<Player>>, p: Player, x: int, y: int, n: int) -> bool
    decreases n,
{
    if n <= 0 {
        false
    } else {
        captures_by(s, p, x, y, n - 1) || captured(s, p, x, y, n - 1) > 0
    }
}

/// `p` may play at (x, y): the cell is empty and some heading captures.
pub open spec fn is_legal(s: Seq<Option<Player>>, p: Player, x: int, y: int) -> bool {
    cell(s, x, y) is None && captures_by(s, p, x, y, 8)
}

/// The board after `p` plays a legal move at (x, y).
pub open spec fn after_move(s: Seq<Option<Player>>, p: Player, x: int, y: int) -> Seq<
    Option<Player>,
> {
    Seq::new(
        64,
        |k: int|
            if k == x * 8 + y || flipped_by(s, p, x, y, 8, k / 8, k % 8) {
                Some(p)
            } else {
                s[k]
            },
    )
}

/// What playing at (x, y) yields: an error off the board, no board for an illegal
/// move, the new board for a legal one.
pub open spec fn play_outcome(s: Seq<Option<Player>>, p: Player, x: int, y: int) -> Result<
    Option<Seq<Option<Player>>>,
    GameError,
> {
    if !in_bounds(x, y) {
        Err(GameError::OutOfRange)
    } else if is_legal(s, p, x, y) {
        Ok(Some(after_move(s, p, x, y)))
    } else {
        Ok(None)
    }
}

/// `p` has a legal move somewhere; cells are enumerated as index x * 8 + y.
pub open spec fn has_move(s: Seq<Option<Player>>, p: Player) -> bool {
    exists|k: int| 0 <= k < 64 && #[trigger] is_legal(s, p, k / 8, k % 8)
}

/// The number of pieces of `p` among the first `n` cells.
pub open spec fn count_of(s: Seq<Option<Player>>, p: Player, n: int) -> int
    decreases n,
{
    if n <= 0 {
        0
    } else {
        count_of(s, p, n - 1) + if s[n - 1] == Some(p) {
            1int
        } else {
            0int
        }
    }
}

/// The number of pieces of `p` on the board.
pub open spec fn pieces(s: Seq<Option<Player>>, p: Player) -> int {
    count_of(s, p, 64)
}

pub open spec fn outcome_view(r: Result<Option<Board>, GameError>) -> Result<
    Option<Seq<Option<Player>>>,
    GameError,
> {
    match r {
        Ok(Some(b)) => Ok(Some(b@)),
        Ok(None) => Ok(None),
        Err(e) => Err(e),
    }
}

// ---------------------------------------------------------------------------
// Rays: a position walking along a heading, one cell per step, that can turn back.
// ---------------------------------------------------------------------------

/// A walk from a start cell towards the edge of the board along a heading.
/// The start cell itself is not produced; the heading can be reversed.
#[derive(Debug)]
pub struct CellsNavigation {
    current_position: (i8, i8),
    direction: (i8, i8),
}

pub open spec fn is_unit(v: int) -> bool {
    -1 <= v <= 1
}

impl CellsNavigation {
    pub closed spec fn position(self) -> (int, int) {
        (self.current_position.0 as int, self.current_position.1 as int)
    }

    pub closed spec fn heading(self) -> (int, int) {
        (self.direction.0 as int, self.direction.1 as int)
    }

    pub open spec fn well_formed(self) -> bool {
        &&& in_bounds(self.position().0, self.position().1)
        &&& is_unit(self.heading().0)
        &&& is_unit(self.heading().1)
    }

    /// Starts a walk at `start` along `direction`; both components of the heading are in -1..=1.
    pub fn new(start: (u8, u8), direction: (i8, i8)) -> (r: Result<CellsNavigation, GameError>)
        ensures
            r is Ok <==> (in_bounds(start.0 as int, start.1 as int) && is_unit(direction.0 as int)
                && is_unit(direction.1 as int)),
            r matches Ok(n) ==> n.well_formed() && n.position() == (start.0 as int, start.1 as int)
                && n.heading() == (direction.0 as int, direction.1 as int),
            r matches Err(e) ==> e == GameError::OutOfRange,
    {
        if start.0 > 7 || start.1 > 7 {
            return Err(GameError::OutOfRange);
        }
        if direction.0 < -1 || direction.0 > 1 || direction.1 < -1 || direction.1 > 1 {
            return Err(GameError::OutOfRange);
        }
        Ok(CellsNavigation { current_position: (start.0 as i8, start.1 as i8), direction })
    }

    /// Turns the walk around; the next step goes back the way it came.
    pub fn reverse(&mut self)
        requires
            old(self).well_formed(),
        ensures
            final(self).well_formed(),
            final(self).position() == old(self).position(),
            final(self).heading() == (-old(self).heading().0, -old(self).heading().1),
    {
        self.direction = (-self.direction.0, -self.direction.1);
    }

    /// Moves one step; `None`, and no move, once the next cell is off the board.
    pub fn next(&mut self) -> (r: Option<(u8, u8)>)
        requires
            old(self).well_formed(),
        ensures
            final(self).well_formed(),
            final(self).heading() == old(self).heading(),
            ({
                let nx = old(self).position().0 + old(self).heading().0;
                let ny = old(self).position().1 + old(self).heading().1;
                if in_bounds(nx, ny) {
                    &&& r matches Some(pos) && pos.0 as int == nx && pos.1 as int == ny
                    &&& final(self).position() == (nx, ny)
                } else {
                    &&& r is None
                    &&& final(self).position() == old(self).position()
                }
            }),
    {
        let x: i8 = self.current_position.0 + self.direction.0;
        let y: i8 = self.current_position.1 + self.direction.1;
        if x < 0 || x > 7 || y < 0 || y > 7 {
            None
        } else {
            self.current_position = (x, y);
            Some((x as u8, y as u8))
        }
    }
}

/// The pieces among the first `n` cells are at most `n`, and exactly `n` only when
/// none of those cells is empty.
pub proof fn lemma_counts(s: Seq<Option<Player>>, n: int)
    requires
        0 <= n <= s.len(),
    ensures
        count_of(s, Player::Black, n) + count_of(s, Player::White, n) <= n,
        count_of(s, Player::Black, n) + count_of(s, Player::White, n) == n ==> forall|k: int|
            0 <= k < n ==> #[trigger] s[k] is Some,
    decreases n,
{
    if n > 0 {
        lemma_counts(s, n - 1);
    }
}

/// On a board whose 64 cells are all occupied nobody has a legal move.
pub proof fn lemma_full_board_has_no_move(s: Seq<Option<Player>>, p: Player)
    requires
        s.len() == 64,
        pieces(s, Player::Black) + pieces(s, Player::White) == 64,
    ensures
        !has_move(s, p),
{
    lemma_counts(s, 64);
    assert forall|k: int| 0 <= k < 64 implies !#[trigger] is_legal(s, p, k / 8, k % 8) by {
        assert((k / 8) * 8 + k % 8 == k);
        assert(s[k] is Some);
    }
}

/// Playing is pure: its outcome depends on the board, the player and the cell alone, so
/// two plays with the same arguments on the same board agree. (`play` reads the board
/// through a shared reference, so the board played on is never changed.)
pub proof fn lemma_play_is_pure(
    b: Board,
    p: Player,
    x: u8,
    y: u8,
    r1: Result<Option<Board>, GameError>,
    r2: Result<Option<Board>, GameError>,
)
    requires
        outcome_view(r1) == play_outcome(b@, p, x as int, y as int),
        outcome_view(r2) == play_outcome(b@, p, x as int, y as int),
    ensures
        outcome_view(r1) == outcome_view(r2),
        r1 is Ok <==> r2 is Ok,
        r1 matches Ok(Some(b1)) ==> (r2 matches Ok(Some(b2)) && b1@ == b2@),
{
}

/// Piece counts over the first `n` cells of the opening board.
proof fn lemma_start_counts(n: int)
    requires
        0 <= n <= 64,
    ensures
        count_of(start_cells(), Player::Black, n) == if n > 35 {
            2int
        } else if n > 28 {
            1int
        } else {
            0int
        },
        count_of(start_cells(), Player::White, n) == if n > 36 {
            2int
        } else if n > 27 {
            1int
        } else {
            0int
        },
    decreases n,
{
    if n > 0 {
        lemma_start_counts(n - 1);
    }
}

/// A cell of the board that lies `k` steps from another along a heading is at most 7 steps away.
proof fn lemma_step_bound(x: int, y: int, d: int, k: int)
    requires
        in_bounds(x, y),
        0 <= d < 8,
        0 <= k,
        in_bounds(ray_step(x, y, d, k).0, ray_step(x, y, d, k).1),
    ensures
        k <= 7,
{
}

/// Heading `d` as a pair of unit steps.
fn heading_of(d: u8) -> (r: (i8, i8))
    requires
        d < 8,
    ensures
        r.0 as int == dir_x(d as int),
        r.1 as int == dir_y(d as int),
{
    match d {
        0 => (0i8, -1i8),
        1 => (1i8, -1i8),
        2 => (1i8, 0i8),
        3 => (1i8, 1i8),
        4 => (0i8, 1i8),
        5 => (-1i8, 1i8),
        6 => (-1i8, 0i8),
        _ => (-1i8, -1i8),
    }
}

// ---------------------------------------------------------------------------
// The board itself.
// ---------------------------------------------------------------------------

/// An Othello board, implementing moves. It knows nothing of whose turn it is.
/// A board is a value: playing on it yields a new board and leaves it as it was.
#[derive(Debug, Copy, Clone)]
pub struct Board {
    cells: [Option<Player>; 64],
}

impl View for Board {
    type V = Seq<Option<Player>>;

    closed spec fn view(&self) -> Seq<Option<Player>> {
        self.cells@
    }
}

/// Every board has 64 cells.
pub broadcast proof fn lemma_board_len(b: Board)
    ensures
        #[trigger] b@.len() == 64,
{
}

impl Board {
    /// Creates an empty board.
    pub fn new() -> (r: Board)
        ensures
            r@ == empty_cells(),
    {
        let r = Board { cells: [None; 64] };
        assert(r@ =~= empty_cells());
        r
    }

    /// Creates a new board ready to start a game.
    pub fn new_start() -> (r: Board)
        ensures
            r@ == start_cells(),
            pieces(r@, Player::Black) == 2,
            pieces(r@, Player::White) == 2,
    {
        let mut cells: [Option<Player>; 64] = [None; 64];
        cells[27] = Some(Player::White);
        cells[36] = Some(Player::White);
        cells[28] = Some(Player::Black);
        cells[35] = Some(Player::Black);
        let r = Board { cells };
        assert(r@ =~= start_cells());
        proof {
            lemma_start_counts(64);
        }
        r
    }

    fn check_coordinates(x: u8, y: u8) -> (r: Result<(), GameError>)
        ensures
            r is Ok <==> in_bounds(x as int, y as int),
            r matches Err(e) ==> e == GameError::OutOfRange,
    {
        if x > 7 || y > 7 {
            Err(GameError::OutOfRange)
        } else {
            Ok(())
        }
    }

    /// Sets the content of a board cell.
    pub fn set_piece(&mut self, x: u8, y: u8, piece: Option<Player>) -> (r: Result<(), GameError>)
        ensures
            in_bounds(x as int, y as int) ==> r is Ok && final(self)@ == old(self)@.update(
                x as int * 8 + y as int,
                piece,
            ),
            !in_bounds(x as int, y as int) ==> r == Err::<(), GameError>(GameError::OutOfRange)
                && final(self)@ == old(self)@,
    {
        match Self::check_coordinates(x, y) {
            Err(e) => Err(e),
            Ok(()) => {
                self.cells[x as usize * 8 + y as usize] = piece;
                Ok(())
            },
        }
    }

    /// Gets the content of a board cell.
    pub fn get_piece(&self, x: u8, y: u8) -> (r: Result<Option<Player>, GameError>)
        ensures
            in_bounds(x as int, y as int) ==> r == Ok::<Option<Player>, GameError>(
                cell(self@, x as int, y as int),
            ),
            !in_bounds(x as int, y as int) ==> r == Err::<Option<Player>, GameError>(
                GameError::OutOfRange,
            ),
    {
        match Self::check_coordinates(x, y) {
            Err(e) => Err(e),
            Ok(()) => Ok(self.cells[x as usize * 8 + y as usize]),
        }
    }

    /// All 64 cells with their coordinates, x outer and y inner: entry k is (k / 8, k % 8).
    pub fn iter(&self) -> (r: Vec<(u8, u8, Option<Player>)>)
        ensures
            r@.len() == 64,
            forall|k: int|
                0 <= k < 64 ==> #[trigger] r@[k] == ((k / 8) as u8, (k % 8) as u8, self@[k]),
    {
        let mut cells: Vec<(u8, u8, Option<Player>)> = Vec::new();
        let mut i: u8 = 0;
        while i < 64
            invariant
                i <= 64,
                self@.len() == 64,
                cells@.len() == i,
                forall|k: int|
                    0 <= k < i ==> #[trigger] cells@[k] == ((k / 8) as u8, (k % 8) as u8, self@[k]),
            decreases 64 - i,
        {
            cells.push((i / 8, i % 8, self.cells[i as usize]));
            i = i + 1;
        }
        cells
    }

    /// Counts the pieces of each side: (black, white).
    pub fn count_pieces(&self) -> (r: (u8, u8))
        ensures
            r.0 as int == pieces(self@, Player::Black),
            r.1 as int == pieces(self@, Player::White),
    {
        let mut black: u8 = 0;
        let mut white: u8 = 0;
        let mut i: usize = 0;
        while i < 64
            invariant
                i <= 64,
                self@.len() == 64,
                black as int == count_of(self@, Player::Black, i as int),
                white as int == count_of(self@, Player::White, i as int),
                black <= i,
                white <= i,
            decreases 64 - i,
        {
            match self.cells[i] {
                Some(Player::Black) => black = black + 1,
                Some(Player::White) => white = white + 1,
                None => {},
            }
            i = i + 1;
        }
        (black, white)
    }

    /// Walks from the origin of `nav` along heading `d` over opponent pieces; true when
    /// a piece of `player` closes a non-empty run, and `nav` then stands on that piece.
    fn scan(&self, player: Player, x: u8, y: u8, d: u8, start: CellsNavigation) -> (r: (
        bool,
        CellsNavigation,
    ))
        requires
            x < 8,
            y < 8,
            d < 8,
            start.position() == (x as int, y as int),
            start.heading() == (dir_x(d as int), dir_y(d as int)),
        ensures
            r.1.heading() == start.heading(),
            r.1.well_formed(),
            r.0 == (captured(self@, player, x as int, y as int, d as int) > 0),
            r.0 ==> r.1.position() == ray_step(
                x as int,
                y as int,
                d as int,
                run_end(self@, player, x as int, y as int, d as int, 1),
            ),
    {
        let other = player.opponent();
        let mut nav = start;
        let mut found_other = false;
        let ghost mut k: int = 0;
        loop
            invariant
                x < 8,
                y < 8,
                d < 8,
                self@.len() == 64,
                nav.well_formed(),
                nav.heading() == (dir_x(d as int), dir_y(d as int)),
                nav.heading() == start.heading(),
                other == player.spec_opponent(),
                0 <= k <= 7,
                nav.position() == ray_step(x as int, y as int, d as int, k),
                found_other == (k > 0),
                run_end(self@, player, x as int, y as int, d as int, 1) == run_end(
                    self@,
                    player,
                    x as int,
                    y as int,
                    d as int,
                    k + 1,
                ),
            decreases 8 - k,
        {
            match nav.next() {
                None => {
                    return (false, nav);
                },
                Some(pos) => {
                    let piece = self.cells[pos.0 as usize * 8 + pos.1 as usize];
                    proof {
                        lemma_step_bound(x as int, y as int, d as int, k + 1);
                        assert(piece == cell(self@, ray_step(x as int, y as int, d as int, k + 1).0, ray_step(x as int, y as int, d as int, k + 1).1));
                    }
                    match piece {
                        None => {
                            return (false, nav);
                        },
                        Some(q) => {
                            if q == other {
                                found_other = true;
                                proof {
                                    assert(run_end(self@, player, x as int, y as int, d as int, k + 1)
                                        == run_end(self@, player, x as int, y as int, d as int, k + 2));
                                    k = k + 1;
                                }
                            } else {
                                assert(run_end(self@, player, x as int, y as int, d as int, k + 1)
                                    == k + 1);
                                return (found_other, nav);
                            }
                        },
                    }
                },
            }
        }
    }

    /// Walks `nav` back from step `e` of heading `d` towards (x, y), giving `player`
    /// every cell strictly between the two.
    fn flip_back(
        &self,
        player: Player,
        x: u8,
        y: u8,
        d: u8,
        end: CellsNavigation,
        Ghost(e): Ghost<int>,
    ) -> (r: Board)
        requires
            x < 8,
            y < 8,
            d < 8,
            1 <= e <= 7,
            end.well_formed(),
            end.position() == ray_step(x as int, y as int, d as int, e),
            end.heading() == (dir_x(d as int), dir_y(d as int)),
        ensures
            forall|k: int|
                0 <= k < 64 ==> #[trigger] r@[k] == if on_ray_between(
                    x as int,
                    y as int,
                    d as int,
                    1,
                    e,
                    k / 8,
                    k % 8,
                ) {
                    Some(player)
                } else {
                    self@[k]
                },
    {
        let mut nav = end;
        let mut board = *self;
        nav.reverse();
        let ghost mut m: int = e;
        loop
            invariant
                x < 8,
                y < 8,
                d < 8,
                1 <= m <= e <= 7,
                self@.len() == 64,
                board@.len() == 64,
                nav.well_formed(),
                nav.position() == ray_step(x as int, y as int, d as int, m),
                nav.heading() == (-dir_x(d as int), -dir_y(d as int)),
                forall|k: int|
                    0 <= k < 64 ==> #[trigger] board@[k] == if on_ray_between(
                        x as int,
                        y as int,
                        d as int,
                        m,
                        e,
                        k / 8,
                        k % 8,
                    ) {
                        Some(player)
                    } else {
                        self@[k]
                    },
            decreases m,
        {
            match nav.next() {
                None => {
                    return board;
                },
                Some(pos) => {
                    if pos.0 == x && pos.1 == y {
                        return board;
                    }
                    let idx = pos.0 as usize * 8 + pos.1 as usize;
                    proof {
                        assert(idx as int / 8 == pos.0 as int);
                        assert(idx as int % 8 == pos.1 as int);
                    }
                    board.cells[idx] = Some(player);
                    proof {
                        m = m - 1;
                    }
                },
            }
        }
    }

    /// Plays at (x, y) for `player`: the new board for a legal move, `None` for an
    /// occupied cell or a move that captures nothing, an error off the board.
    pub fn play(&self, player: Player, x: u8, y: u8) -> (r: Result<Option<Board>, GameError>)
        ensures
            outcome_view(r) == play_outcome(self@, player, x as int, y as int),
            (in_bounds(x as int, y as int) && cell(self@, x as int, y as int) is Some) ==> r
                matches Ok(None),
    {
        if x > 7 || y > 7 {
            return Err(GameError::OutOfRange);
        }
        let idx = x as usize * 8 + y as usize;
        if self.cells[idx].is_some() {
            return Ok(None);
        }
        let mut new_board = *self;
        let mut valid_move = false;
        let mut d: u8 = 0;
        while d < 8
            invariant
                x < 8,
                y < 8,
                d <= 8,
                idx == x * 8 + y,
                self@.len() == 64,
                new_board@.len() == 64,
                valid_move == captures_by(self@, player, x as int, y as int, d as int),
                forall|k: int|
                    0 <= k < 64 ==> #[trigger] new_board@[k] == if flipped_by(
                        self@,
                        player,
                        x as int,
                        y as int,
                        d as int,
                        k / 8,
                        k % 8,
                    ) {
                        Some(player)
                    } else {
                        self@[k]
                    },
            decreases 8 - d,
        {
            let start = CellsNavigation {
                current_position: (x as i8, y as i8),
                direction: heading_of(d),
            };
            let (can_capture, end) = self.scan(player, x, y, d, start);
            if can_capture {
                valid_move = true;
                let ghost e = run_end(self@, player, x as int, y as int, d as int, 1);
                new_board = new_board.flip_back(player, x, y, d, end, Ghost(e));
            }
            d = d + 1;
        }
        if valid_move {
            new_board.cells[idx] = Some(player);
            assert(new_board@ =~= after_move(self@, player, x as int, y as int));
            Ok(Some(new_board))
        } else {
            Ok(None)
        }
    }
}

} // verus!
