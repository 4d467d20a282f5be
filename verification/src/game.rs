//! The host-facing surface: plain enums for cell colors, game status and
//! opponent strength, and the `Game` type that ties the engine to the two
//! seats.
use vstd::prelude::*;

use crate::board::{
    cell, game_over, grid_wf, has_legal_move, in_bounds, is_grid_after, is_legal,
    lemma_pointwise_equal_grids, Board, Grid, Point,
};
use crate::engine::{outcome_of, ReversiError, SimpleReversiGame};
use crate::player::{Computer, PlayerManager, PlayerType};
use crate::stone::{opposite, Stone};
use crate::strategy::{RandomComputer, SimpleComputer, WeightedComputer};

verus! {

/// What a rendered cell shows: a stone of either color, or nothing.
#[derive(Clone, Copy, Debug, PartialEq, Eq, Structural)]
pub enum Color {
    Black,
    White,
    Empty,
}

/// The color that renders the cell `oc`.
pub open spec fn color_of_cell(oc: Option<Stone>) -> Color {
    match oc {
        Some(Stone::Black) => Color::Black,
        Some(Stone::White) => Color::White,
        None => Color::Empty,
    }
}

/// The cell that the rendered color `c` stands for.
pub open spec fn cell_of_color(c: Color) -> Option<Stone> {
    match c {
        Color::Black => Some(Stone::Black),
        Color::White => Some(Stone::White),
        Color::Empty => None,
    }
}

/// The color's display name.
pub fn color_to_string(color: Color) -> (r: String)
    ensures
        color == Color::Black ==> r@ == "Black"@,
        color == Color::White ==> r@ == "White"@,
        color == Color::Empty ==> r@ == "Empty"@,
{
    match color {
        Color::Black => "Black".to_owned(),
        Color::White => "White".to_owned(),
        Color::Empty => "Empty".to_owned(),
    }
}

/// What one `put` reports to the host.
#[derive(Clone, Copy, Debug, PartialEq, Eq, Structural)]
pub enum GameStatus {
    /// The move was accepted and the turn passed to the opponent.
    Accepted,
    InvalidMove,
    BlackWin,
    WhiteWin,
    Draw,
    BlackCantPutStone,
    WhiteCantPutStone,
}

/// How an engine result folds into a host status: every rejection becomes
/// `InvalidMove`, terminal outcomes and skips name their color.
pub open spec fn status_of(value: Result<(), ReversiError>) -> GameStatus {
    match value {
        Ok(()) => GameStatus::Accepted,
        Err(err) => match err {
            ReversiError::StoneAlreadyPlaced => GameStatus::InvalidMove,
            ReversiError::InvalidMove => GameStatus::InvalidMove,
            ReversiError::IndexOutOfBound => GameStatus::InvalidMove,
            ReversiError::NoStoneToFlip => GameStatus::InvalidMove,
            ReversiError::GameOverWithWinner(winner) => if winner == Stone::Black {
                GameStatus::BlackWin
            } else {
                GameStatus::WhiteWin
            },
            ReversiError::GameOverWithDraw => GameStatus::Draw,
            ReversiError::NextPlayerCantPutStone(stone) => if stone == Stone::Black {
                GameStatus::BlackCantPutStone
            } else {
                GameStatus::WhiteCantPutStone
            },
        },
    }
}

impl From<Result<(), ReversiError>> for GameStatus {
    fn from(value: Result<(), ReversiError>) -> (r: GameStatus) {
        match value {
            Ok(()) => GameStatus::Accepted,
            Err(err) => match err {
                ReversiError::StoneAlreadyPlaced
                | ReversiError::InvalidMove
                | ReversiError::IndexOutOfBound
                | ReversiError::NoStoneToFlip => GameStatus::InvalidMove,
                ReversiError::GameOverWithWinner(winner) => match winner {
                    Stone::Black => GameStatus::BlackWin,
                    Stone::White => GameStatus::WhiteWin,
                },
                ReversiError::GameOverWithDraw => GameStatus::Draw,
                ReversiError::NextPlayerCantPutStone(stone) => {
                    if stone == Stone::Black {
                        GameStatus::BlackCantPutStone
                    } else {
                        GameStatus::WhiteCantPutStone
                    }
                },
            },
        }
    }
}

impl vstd::std_specs::convert::FromSpecImpl<Result<(), ReversiError>> for GameStatus {
    open spec fn obeys_from_spec() -> bool {
        true
    }

    open spec fn from_spec(value: Result<(), ReversiError>) -> GameStatus {
        status_of(value)
    }
}

/// The strength of the computer seat.
#[derive(Clone, Copy, Debug, PartialEq, Eq, Structural)]
pub enum ComputerStrength {
    Random,
    Simple,
    Weighted,
}

/// Compares two strings character by character.
fn str_eq(a: &str, b: &str) -> (r: bool)
    ensures
        r == (a@ == b@),
{
    let alen = a.unicode_len();
    let blen = b.unicode_len();
    if alen != blen {
        return false;
    }
    let mut i: usize = 0;
    while i < alen
        invariant
            alen == a@.len(),
            blen == b@.len(),
            alen == blen,
            i <= alen,
            forall|j: int| 0 <= j < i ==> a@[j] == b@[j],
        decreases alen - i,
    {
        if a.get_char(i) != b.get_char(i) {
            return false;
        }
        i += 1;
    }
    proof {
        assert(a@ =~= b@);
    }
    true
}

/// Parses a strength name; anything unrecognized falls back to the
/// strongest opponent.
pub fn str_to_computer_strength(s: &str) -> (r: ComputerStrength)
    ensures
        s@ == "random"@ ==> r == ComputerStrength::Random,
        s@ == "simple"@ ==> r == ComputerStrength::Simple,
        s@ != "random"@ && s@ != "simple"@ ==> r == ComputerStrength::Weighted,
{
    proof {
        reveal_strlit("random");
        reveal_strlit("simple");
        assert("random"@[0] == 'r');
        assert("simple"@[0] == 's');
        assert("random"@ != "simple"@);
    }
    if str_eq(s, "random") {
        ComputerStrength::Random
    } else if str_eq(s, "simple") {
        ComputerStrength::Simple
    } else {
        ComputerStrength::Weighted
    }
}

/// The kind of an assembled computer opponent.
pub open spec fn strength_of(c: Computer) -> ComputerStrength {
    match c {
        Computer::Random(_) => ComputerStrength::Random,
        Computer::Simple(_) => ComputerStrength::Simple,
        Computer::Weighted(_) => ComputerStrength::Weighted,
    }
}

/// One game as the host sees it: the engine plus the two seats. Black is
/// the human seat; White is human or a computer of the chosen strength.
pub struct Game {
    game: SimpleReversiGame,
    player_mgr: PlayerManager,
}

impl Game {
    /// The board as a mathematical grid.
    pub closed spec fn spec_board(&self) -> Grid {
        self.game.spec_board()
    }

    /// The color to move.
    pub closed spec fn spec_turn(&self) -> Stone {
        self.game.spec_turn()
    }

    /// The seat of color `c`.
    pub closed spec fn spec_seat(&self, c: Stone) -> PlayerType {
        self.player_mgr.spec_seat(c)
    }

    /// The game's internal invariant.
    pub closed spec fn wf(&self) -> bool {
        self.game.wf() && self.player_mgr.wf()
    }

    /// Starts a game: standard opening position, Black (the human seat) to
    /// move; White is human exactly when `is_human` holds, else a computer
    /// of strength `computer_strength`.
    pub fn new(is_human: bool, computer_strength: ComputerStrength) -> (r: Game)
        ensures
            r.wf(),
            r.spec_turn() == Stone::Black,
            cell(r.spec_board(), 3, 3) == Some(Stone::White),
            cell(r.spec_board(), 4, 4) == Some(Stone::White),
            cell(r.spec_board(), 3, 4) == Some(Stone::Black),
            cell(r.spec_board(), 4, 3) == Some(Stone::Black),
            forall|x: int, y: int|
                in_bounds(x, y) && !((x == 3 || x == 4) && (y == 3 || y == 4))
                    ==> #[trigger] cell(r.spec_board(), x, y) is None,
            r.spec_seat(Stone::Black) is Human,
            is_human ==> r.spec_seat(Stone::White) is Human,
            !is_human ==> (r.spec_seat(Stone::White) matches PlayerType::Computer(com)
                && strength_of(com) == computer_strength),
    {
        let computer = match computer_strength {
            ComputerStrength::Random => Computer::Random(RandomComputer::new(Stone::White)),
            ComputerStrength::Simple => Computer::Simple(SimpleComputer::new(Stone::White)),
            ComputerStrength::Weighted => Computer::Weighted(WeightedComputer::new(Stone::White)),
        };
        let white = if is_human {
            PlayerType::Human
        } else {
            PlayerType::Computer(computer)
        };
        Game {
            game: SimpleReversiGame::new(),
            player_mgr: PlayerManager::new(PlayerType::Human, white),
        }
    }

    /// The next move for the seat of the color to move: `None` for a
    /// human seat, otherwise the computer's legal choice (or `None` when
    /// that color is stuck).
    pub fn decide(&self) -> (r: Option<Point>)
        requires
            self.wf(),
        ensures
            self.spec_seat(self.spec_turn()) is Human ==> r is None,
            self.spec_seat(self.spec_turn()) matches PlayerType::Computer(com) ==> ((r is Some
                <==> has_legal_move(self.spec_board(), self.spec_turn())) && (r matches Some(p)
                ==> is_legal(self.spec_board(), self.spec_turn(), p.x as int, p.y as int))),
    {
        self.player_mgr.decide(self.game.board(), self.game.turn())
    }

    /// The color to move puts a stone on `(x, y)`; every engine rejection
    /// is reported as a status and leaves the game unchanged.
    pub fn put(&mut self, x: usize, y: usize) -> (r: GameStatus)
        requires
            old(self).wf(),
        ensures
            final(self).wf(),
            final(self).spec_seat(Stone::Black) == old(self).spec_seat(Stone::Black),
            final(self).spec_seat(Stone::White) == old(self).spec_seat(Stone::White),
            game_over(old(self).spec_board()) ==> r == status_of(
                Err(outcome_of(old(self).spec_board())),
            ) && final(self).spec_board() == old(self).spec_board() && final(self).spec_turn()
                == old(self).spec_turn(),
            !game_over(old(self).spec_board()) && !is_legal(
                old(self).spec_board(),
                old(self).spec_turn(),
                x as int,
                y as int,
            ) ==> r == GameStatus::InvalidMove && final(self).spec_board() == old(self).spec_board()
                && final(self).spec_turn() == old(self).spec_turn(),
            !game_over(old(self).spec_board()) && is_legal(
                old(self).spec_board(),
                old(self).spec_turn(),
                x as int,
                y as int,
            ) ==> {
                let g0 = old(self).spec_board();
                let t = old(self).spec_turn();
                let g2 = final(self).spec_board();
                &&& is_grid_after(g0, t, x as int, y as int, g2)
                &&& has_legal_move(g2, opposite(t)) ==> final(self).spec_turn() == opposite(t) && r
                    == GameStatus::Accepted
                &&& !has_legal_move(g2, opposite(t)) && has_legal_move(g2, t) ==> final(self).spec_turn() == t && r == status_of(
                    Err(ReversiError::NextPlayerCantPutStone(opposite(t))),
                )
                &&& !has_legal_move(g2, opposite(t)) && !has_legal_move(g2, t) ==> final(self).spec_turn() == t && game_over(g2) && r == status_of(Err(outcome_of(g2)))
            },
    {
        let res = self.game.put_stone(x, y);
        GameStatus::from(res)
    }

    /// The board as an 8x8 matrix of rendered colors, row by row.
    pub fn get_board(&self) -> (r: Vec<Vec<Color>>)
        requires
            self.wf(),
        ensures
            r@.len() == 8,
            forall|yy: int| 0 <= yy < 8 ==> (#[trigger] r@[yy])@.len() == 8,
            forall|xx: int, yy: int|
                in_bounds(xx, yy) ==> #[trigger] r@[yy]@[xx] == color_of_cell(
                    cell(self.spec_board(), xx, yy),
                ),
    {
        let ghost g = self.spec_board();
        let mut rows: Vec<Vec<Color>> = Vec::new();
        let mut y: usize = 0;
        while y < 8
            invariant
                self.wf(),
                g == self.spec_board(),
                y <= 8,
                rows@.len() == y,
                forall|yy: int| 0 <= yy < y ==> (#[trigger] rows@[yy])@.len() == 8,
                forall|xx: int, yy: int|
                    0 <= yy < y && 0 <= xx < 8 ==> #[trigger] rows@[yy]@[xx] == color_of_cell(
                        cell(g, xx, yy),
                    ),
            decreases 8 - y,
        {
            let mut row: Vec<Color> = Vec::new();
            let mut x: usize = 0;
            while x < 8
                invariant
                    self.wf(),
                    g == self.spec_board(),
                    y < 8,
                    x <= 8,
                    row@.len() == x,
                    forall|xx: int|
                        0 <= xx < x ==> #[trigger] row@[xx] == color_of_cell(
                            cell(g, xx, y as int),
                        ),
                decreases 8 - x,
            {
                let oc = match self.game.board().get(x, y) {
                    Ok(oc) => oc,
                    Err(_) => None,
                };
                let col = match oc {
                    Some(Stone::Black) => Color::Black,
                    Some(Stone::White) => Color::White,
                    None => Color::Empty,
                };
                row.push(col);
                x += 1;
            }
            rows.push(row);
            y += 1;
        }
        rows
    }

    /// Whether the color to move may put a stone on `(x, y)`.
    pub fn can_put_stone(&self, x: usize, y: usize) -> (r: bool)
        requires
            self.wf(),
        ensures
            r == is_legal(self.spec_board(), self.spec_turn(), x as int, y as int),
    {
        self.game.check_can_put(x, y)
    }

    /// All legal moves of the color to move, in strictly increasing
    /// row-major order on `(x, y)`.
    pub fn get_can_put_stones(&self) -> (r: Vec<Point>)
        requires
            self.wf(),
        ensures
            forall|j: int|
                0 <= j < r@.len() ==> is_legal(
                    self.spec_board(),
                    self.spec_turn(),
                    (#[trigger] r@[j]).x as int,
                    r@[j].y as int,
                ),
            forall|xx: int, yy: int|
                #[trigger] is_legal(self.spec_board(), self.spec_turn(), xx, yy) ==> exists|j: int|
                    0 <= j < r@.len() && (#[trigger] r@[j]).x as int == xx && r@[j].y as int == yy,
            forall|j1: int, j2: int|
                0 <= j1 < j2 < r@.len() ==> crate::board::lex_lt(
                    (#[trigger] r@[j1]).x as int,
                    r@[j1].y as int,
                    (#[trigger] r@[j2]).x as int,
                    r@[j2].y as int,
                ),
            r@.len() == 0 <==> !has_legal_move(self.spec_board(), self.spec_turn()),
    {
        self.game.get_can_put_stones()
    }

    /// Whether the game is over: neither color has a legal move.
    pub fn is_game_over(&self) -> (r: bool)
        requires
            self.wf(),
        ensures
            r == game_over(self.spec_board()),
    {
        self.game.is_game_over()
    }

    /// The color to move, as a rendered color (never `Empty`).
    pub fn get_turn(&self) -> (r: Color)
        ensures
            r == color_of_cell(Some(self.spec_turn())),
    {
        match self.game.turn() {
            Stone::Black => Color::Black,
            Stone::White => Color::White,
        }
    }

    /// Rebuilds a game from an 8x8 color snapshot (as `get_board`
    /// produces) and the color to move, with the given seats; rejects a
    /// matrix of any other shape.
    pub fn from_snapshot(rows: &Vec<Vec<Color>>, turn: Stone, is_human: bool, computer_strength: ComputerStrength) -> (r: Result<
        Game,
        ReversiError,
    >)
        ensures
            r is Ok <==> (rows@.len() == 8 && forall|yy: int|
                0 <= yy < 8 ==> (#[trigger] rows@[yy])@.len() == 8),
            r matches Ok(gm) ==> gm.wf() && gm.spec_turn() == turn && forall|xx: int, yy: int|
                in_bounds(xx, yy) ==> #[trigger] cell(gm.spec_board(), xx, yy) == cell_of_color(
                    rows@[yy]@[xx],
                ),
    {
        let mut cells: Vec<Vec<Option<Stone>>> = Vec::new();
        let mut y: usize = 0;
        if rows.len() != 8 {
            return Err(ReversiError::IndexOutOfBound);
        }
        while y < 8
            invariant
                rows@.len() == 8,
                y <= 8,
                cells@.len() == y,
                forall|yy: int| 0 <= yy < y ==> (#[trigger] rows@[yy])@.len() == 8,
                forall|yy: int|
                    0 <= yy < y ==> (#[trigger] cells@[yy])@.len() == rows@[yy]@.len(),
                forall|xx: int, yy: int|
                    0 <= yy < y && 0 <= xx < rows@[yy]@.len() ==> #[trigger] cells@[yy]@[xx]
                        == cell_of_color(rows@[yy]@[xx]),
            decreases 8 - y,
        {
            if rows[y].len() != 8 {
                return Err(ReversiError::IndexOutOfBound);
            }
            let mut line: Vec<Option<Stone>> = Vec::new();
            let mut x: usize = 0;
            while x < 8
                invariant
                    rows@.len() == 8,
                    y < 8,
                    rows@[y as int]@.len() == 8,
                    x <= 8,
                    line@.len() == x,
                    forall|xx: int|
                        0 <= xx < x ==> #[trigger] line@[xx] == cell_of_color(rows@[y as int]@[xx]),
                decreases 8 - x,
            {
                let oc = match rows[y][x] {
                    Color::Black => Some(Stone::Black),
                    Color::White => Some(Stone::White),
                    Color::Empty => None,
                };
                line.push(oc);
                x += 1;
            }
            cells.push(line);
            y += 1;
        }
        let board = match Board::from_cells(&cells) {
            Ok(b) => b,
            Err(e) => {
                return Err(e);
            },
        };
        let game = SimpleReversiGame::from_parts(board, turn);
        let white_strategy = match computer_strength {
            ComputerStrength::Random => Computer::Random(RandomComputer::new(Stone::White)),
            ComputerStrength::Simple => Computer::Simple(SimpleComputer::new(Stone::White)),
            ComputerStrength::Weighted => Computer::Weighted(WeightedComputer::new(Stone::White)),
        };
        let white = if is_human {
            PlayerType::Human
        } else {
            PlayerType::Computer(white_strategy)
        };
        Ok(Game { game, player_mgr: PlayerManager::new(PlayerType::Human, white) })
    }
}

impl Default for Game {
    /// A fresh game against a weighted computer opponent.
    fn default() -> (r: Game)
        ensures
            r.wf(),
            r.spec_turn() == Stone::Black,
    {
        Game::new(true, ComputerStrength::Weighted)
    }
}

/// Round trip: a game rebuilt from a snapshot whose cells agree with a
/// board, with the same color to move, has exactly the same legal moves
/// for every color (and so the same flip runs and game-over verdict).
pub proof fn lemma_snapshot_round_trip(g1: Grid, g2: Grid)
    requires
        grid_wf(g1),
        grid_wf(g2),
        forall|x: int, y: int| in_bounds(x, y) ==> #[trigger] cell(g1, x, y) == cell(g2, x, y),
    ensures
        g1 == g2,
        forall|c: Stone, x: int, y: int|
            #[trigger] is_legal(g1, c, x, y) == is_legal(g2, c, x, y),
{
    lemma_pointwise_equal_grids(g1, g2);
}

} // verus!
