//! End-to-end tests of the engine through its public surface.
use reversi_core::board::{Board, Point};
use reversi_core::engine::{ReversiError, SimpleReversiGame};
use reversi_core::game::{
    color_to_string, str_to_computer_strength, Color, ComputerStrength, Game, GameStatus,
};
use reversi_core::stone::Stone;
use reversi_core::strategy::{RandomComputer, SimpleComputer, WeightedComputer};

/// Builds a board from 8 rows of `B`, `W` and `.` characters.
fn board_from(rows: [&str; 8]) -> Board {
    let cells: Vec<Vec<Option<Stone>>> = rows
        .iter()
        .map(|row| {
            row.chars()
                .map(|ch| match ch {
                    'B' => Some(Stone::Black),
                    'W' => Some(Stone::White),
                    _ => None,
                })
                .collect()
        })
        .collect();
    Board::from_cells(&cells).unwrap()
}

fn pt(x: usize, y: usize) -> Point {
    Point::new(x, y)
}

#[test]
fn initial_board_has_exactly_four_stones() {
    let board = Board::new();
    assert_eq!(board.count(Stone::Black), 2);
    assert_eq!(board.count(Stone::White), 2);
    assert_eq!(board.get(3, 3).unwrap(), Some(Stone::White));
    assert_eq!(board.get(4, 4).unwrap(), Some(Stone::White));
    assert_eq!(board.get(3, 4).unwrap(), Some(Stone::Black));
    assert_eq!(board.get(4, 3).unwrap(), Some(Stone::Black));
    for y in 0..8 {
        for x in 0..8 {
            if !((x == 3 || x == 4) && (y == 3 || y == 4)) {
                assert_eq!(board.get(x, y).unwrap(), None);
            }
        }
    }
}

#[test]
fn initial_legal_moves_for_black() {
    let game = SimpleReversiGame::new();
    let moves = game.get_can_put_stones();
    assert_eq!(moves, vec![pt(2, 3), pt(3, 2), pt(4, 5), pt(5, 4)]);
}

#[test]
fn first_move_flips_the_predicted_stone() {
    let mut game = SimpleReversiGame::new();
    assert_eq!(game.put_stone(2, 3), Ok(()));
    assert_eq!(game.board().get(3, 3).unwrap(), Some(Stone::Black));
    assert_eq!(game.board().count(Stone::Black), 4);
    assert_eq!(game.board().count(Stone::White), 1);
    assert_eq!(game.turn(), Stone::White);
}

#[test]
fn apply_move_reports_exactly_the_flipped_cells() {
    let mut board = Board::new();
    let flips = board.apply_move(2, 3, Stone::Black).unwrap();
    assert_eq!(flips, vec![pt(3, 3)]);
    assert_eq!(board.get(2, 3).unwrap(), Some(Stone::Black));
    assert_eq!(board.get(3, 3).unwrap(), Some(Stone::Black));
}

#[test]
fn out_of_range_coordinates_give_index_out_of_bound() {
    let board = Board::new();
    assert_eq!(board.get(8, 0), Err(ReversiError::IndexOutOfBound));
    assert_eq!(board.get(0, 8), Err(ReversiError::IndexOutOfBound));
    assert_eq!(board.get(usize::MAX, 3), Err(ReversiError::IndexOutOfBound));
    let mut game = SimpleReversiGame::new();
    assert_eq!(game.put_stone(8, 0), Err(ReversiError::IndexOutOfBound));
    let mut host = Game::new(true, ComputerStrength::Weighted);
    assert_eq!(host.put(8, 0), GameStatus::InvalidMove);
}

#[test]
fn occupied_cell_is_rejected_without_mutation() {
    let mut game = SimpleReversiGame::new();
    assert_eq!(game.put_stone(3, 3), Err(ReversiError::StoneAlreadyPlaced));
    assert_eq!(game.turn(), Stone::Black);
    assert_eq!(game.board().count(Stone::Black), 2);
    assert_eq!(game.board().count(Stone::White), 2);
}

#[test]
fn flipless_placement_is_rejected() {
    let mut game = SimpleReversiGame::new();
    assert_eq!(game.put_stone(0, 0), Err(ReversiError::NoStoneToFlip));
    assert_eq!(game.turn(), Stone::Black);
}

#[test]
fn stone_count_never_decreases_over_a_game_prefix() {
    let mut game = SimpleReversiGame::new();
    let mut total = game.board().count(Stone::Black) + game.board().count(Stone::White);
    for _ in 0..10 {
        let moves = game.get_can_put_stones();
        if moves.is_empty() {
            break;
        }
        let m = moves[0];
        let _ = game.put_stone(m.x, m.y);
        let now = game.board().count(Stone::Black) + game.board().count(Stone::White);
        assert_eq!(now, total + 1);
        total = now;
    }
}

#[test]
fn opponent_without_reply_is_skipped() {
    let board = board_from([
        "BW......", //
        "........", //
        "........", //
        "........", //
        "BW......", //
        "........", //
        "........", //
        "........", //
    ]);
    let mut game = SimpleReversiGame::from_parts(board, Stone::Black);
    assert_eq!(
        game.put_stone(2, 0),
        Err(ReversiError::NextPlayerCantPutStone(Stone::White))
    );
    // the turn stays with Black, who can still move
    assert_eq!(game.turn(), Stone::Black);
    assert!(game.get_can_put_stones().contains(&pt(2, 4)));
    assert!(!game.is_game_over());
}

#[test]
fn closing_move_wins_by_stone_count() {
    let board = board_from([
        "BW......", //
        "........", //
        "........", //
        "........", //
        "........", //
        "........", //
        "........", //
        "........", //
    ]);
    let mut game = SimpleReversiGame::from_parts(board, Stone::Black);
    assert_eq!(
        game.put_stone(2, 0),
        Err(ReversiError::GameOverWithWinner(Stone::Black))
    );
    assert!(game.is_game_over());
    assert_eq!(game.board().count(Stone::Black), 3);
    assert_eq!(game.board().count(Stone::White), 0);
}

#[test]
fn closing_move_with_equal_counts_draws() {
    let board = board_from([
        "BW......", //
        "........", //
        "........", //
        "........", //
        "....WW..", //
        "....W...", //
        "........", //
        "........", //
    ]);
    let mut game = SimpleReversiGame::from_parts(board, Stone::Black);
    assert_eq!(game.get_can_put_stones(), vec![pt(2, 0)]);
    assert_eq!(game.put_stone(2, 0), Err(ReversiError::GameOverWithDraw));
    assert!(game.is_game_over());
    assert_eq!(game.board().count(Stone::Black), 3);
    assert_eq!(game.board().count(Stone::White), 3);
}

#[test]
fn game_is_not_over_while_either_side_can_move() {
    let game = SimpleReversiGame::new();
    assert!(!game.is_game_over());
}

#[test]
fn host_status_reports_win_draw_and_skip() {
    let rows_win = [
        "BW......", "........", "........", "........", "........", "........", "........",
        "........",
    ];
    let board: Vec<Vec<Color>> = rows_win
        .iter()
        .map(|row| {
            row.chars()
                .map(|ch| match ch {
                    'B' => Color::Black,
                    'W' => Color::White,
                    _ => Color::Empty,
                })
                .collect()
        })
        .collect();
    let mut host =
        Game::from_snapshot(&board, Stone::Black, true, ComputerStrength::Weighted).unwrap();
    assert_eq!(host.put(2, 0), GameStatus::BlackWin);
}

#[test]
fn simple_strategy_takes_the_larger_flip_run() {
    let board = board_from([
        "BWWW....", //
        "........", //
        "BW......", //
        "........", //
        "........", //
        "........", //
        "........", //
        "........", //
    ]);
    // (4,0) flips three stones, (2,2) flips one
    let chooser = SimpleComputer::new(Stone::Black);
    assert_eq!(chooser.decide(&board), Some(pt(4, 0)));
}

#[test]
fn simple_strategy_breaks_ties_toward_the_lowest_point() {
    let board = Board::new();
    // all four opening moves flip exactly one stone
    let chooser = SimpleComputer::new(Stone::Black);
    assert_eq!(chooser.decide(&board), Some(pt(2, 3)));
}

#[test]
fn simple_strategy_declines_when_stuck() {
    let board = board_from([
        "B.......", "........", "........", "........", "........", "........", "........",
        "........",
    ]);
    let chooser = SimpleComputer::new(Stone::Black);
    assert_eq!(chooser.decide(&board), None);
}

#[test]
fn weighted_strategy_picks_a_legal_move() {
    let board = Board::new();
    let chooser = WeightedComputer::new(Stone::White);
    let choice = chooser.decide(&board).unwrap();
    assert!(board.check_move(Stone::White, choice.x, choice.y));
}

#[test]
fn weighted_strategy_prefers_the_corner() {
    let board = board_from([
        "BWWW....", //
        "......W.", //
        ".....W..", //
        "....B...", //
        "........", //
        "........", //
        "........", //
        "........", //
    ]);
    // (4,0) flips three stones but sits on a weight of 5; the corner
    // (7,0) flips the two-stone diagonal run and carries the corner
    // weight of 100
    let chooser = WeightedComputer::new(Stone::Black);
    let choice = chooser.decide(&board).unwrap();
    assert_eq!(choice, pt(7, 0));
}

#[test]
fn random_strategy_is_reproducible_under_a_seed() {
    let board = Board::new();
    let a = RandomComputer::with_seed(Stone::Black, 42);
    let b = RandomComputer::with_seed(Stone::Black, 42);
    let pa = a.decide(&board).unwrap();
    let pb = b.decide(&board).unwrap();
    assert_eq!(pa, pb);
    assert!(board.check_move(Stone::Black, pa.x, pa.y));
}

#[test]
fn random_strategy_declines_when_stuck() {
    let board = board_from([
        "B.......", "........", "........", "........", "........", "........", "........",
        "........",
    ]);
    let chooser = RandomComputer::new(Stone::Black);
    assert_eq!(chooser.decide(&board), None);
}

#[test]
fn human_seat_never_auto_moves() {
    let game = Game::new(true, ComputerStrength::Weighted);
    assert_eq!(game.decide(), None);
}

#[test]
fn computer_seat_answers_with_a_legal_move() {
    let mut game = Game::new(false, ComputerStrength::Simple);
    // Black (human) opens; then it is the computer's turn.
    assert_eq!(game.put(2, 3), GameStatus::Accepted);
    let choice = game.decide().unwrap();
    assert!(game.can_put_stone(choice.x, choice.y));
}

#[test]
fn snapshot_round_trip_preserves_legal_moves() {
    let mut host = Game::new(true, ComputerStrength::Weighted);
    assert_eq!(host.put(2, 3), GameStatus::Accepted);
    let snapshot = host.get_board();
    let rebuilt =
        Game::from_snapshot(&snapshot, Stone::White, true, ComputerStrength::Weighted).unwrap();
    assert_eq!(host.get_can_put_stones(), rebuilt.get_can_put_stones());
    assert_eq!(host.get_turn(), rebuilt.get_turn());
}

#[test]
fn snapshot_of_wrong_shape_is_rejected() {
    let rows: Vec<Vec<Color>> = vec![vec![Color::Empty; 8]; 7];
    assert!(Game::from_snapshot(&rows, Stone::Black, true, ComputerStrength::Weighted).is_err());
    let ragged: Vec<Vec<Color>> = (0..8)
        .map(|y| vec![Color::Empty; if y == 5 { 7 } else { 8 }])
        .collect();
    assert!(Game::from_snapshot(&ragged, Stone::Black, true, ComputerStrength::Weighted).is_err());
}

#[test]
fn get_board_renders_the_opening_position() {
    let game = Game::new(true, ComputerStrength::Weighted);
    let rows = game.get_board();
    assert_eq!(rows.len(), 8);
    for row in &rows {
        assert_eq!(row.len(), 8);
    }
    assert_eq!(rows[3][3], Color::White);
    assert_eq!(rows[4][4], Color::White);
    assert_eq!(rows[4][3], Color::Black);
    assert_eq!(rows[3][4], Color::Black);
    assert_eq!(rows[0][0], Color::Empty);
}

#[test]
fn get_turn_follows_the_moves() {
    let mut game = Game::new(true, ComputerStrength::Weighted);
    assert_eq!(game.get_turn(), Color::Black);
    assert_eq!(game.put(2, 3), GameStatus::Accepted);
    assert_eq!(game.get_turn(), Color::White);
}

#[test]
fn color_names() {
    assert_eq!(color_to_string(Color::Black), "Black");
    assert_eq!(color_to_string(Color::White), "White");
    assert_eq!(color_to_string(Color::Empty), "Empty");
}

#[test]
fn strength_names() {
    assert!(matches!(
        str_to_computer_strength("random"),
        ComputerStrength::Random
    ));
    assert!(matches!(
        str_to_computer_strength("simple"),
        ComputerStrength::Simple
    ));
    assert!(matches!(
        str_to_computer_strength("weighted"),
        ComputerStrength::Weighted
    ));
    assert!(matches!(
        str_to_computer_strength("anything else"),
        ComputerStrength::Weighted
    ));
}

#[test]
fn point_construction() {
    let p = Point::new(3, 4);
    assert_eq!(p.x, 3);
    assert_eq!(p.y, 4);
}

#[test]
fn default_game_awaits_black() {
    let game: Game = Default::default();
    assert_eq!(game.get_turn(), Color::Black);
    assert_eq!(game.decide(), None);
}

#[test]
fn finished_game_rejects_further_moves() {
    let board = board_from([
        "BW......", "........", "........", "........", "........", "........", "........",
        "........",
    ]);
    let mut game = SimpleReversiGame::from_parts(board, Stone::Black);
    assert_eq!(
        game.put_stone(2, 0),
        Err(ReversiError::GameOverWithWinner(Stone::Black))
    );
    // terminal states are absorbing: any further attempt reports the outcome
    assert_eq!(
        game.put_stone(4, 4),
        Err(ReversiError::GameOverWithWinner(Stone::Black))
    );
    assert_eq!(game.board().count(Stone::Black), 3);
}

#[test]
fn set_stone_places_only_on_free_cells() {
    let mut board = Board::new();
    assert_eq!(board.set_stone(0, 0, Stone::Black), Ok(()));
    assert_eq!(board.get(0, 0).unwrap(), Some(Stone::Black));
    assert_eq!(
        board.set_stone(0, 0, Stone::White),
        Err(ReversiError::StoneAlreadyPlaced)
    );
    assert_eq!(
        board.set_stone(9, 0, Stone::White),
        Err(ReversiError::IndexOutOfBound)
    );
}

#[test]
fn host_status_reports_the_skipped_color() {
    let board = board_from([
        "BW......", //
        "........", //
        "........", //
        "........", //
        "BW......", //
        "........", //
        "........", //
        "........", //
    ]);
    let snapshot: Vec<Vec<Color>> = (0..8)
        .map(|y| {
            (0..8)
                .map(|x| match board.get(x, y).unwrap() {
                    Some(Stone::Black) => Color::Black,
                    Some(Stone::White) => Color::White,
                    None => Color::Empty,
                })
                .collect()
        })
        .collect();
    let mut host =
        Game::from_snapshot(&snapshot, Stone::Black, true, ComputerStrength::Weighted).unwrap();
    assert_eq!(host.put(2, 0), GameStatus::WhiteCantPutStone);
    assert_eq!(host.get_turn(), Color::Black);
}

#[test]
fn closing_move_can_still_lose_on_count() {
    let board = board_from([
        "BW......", //
        "........", //
        "........", //
        "........", //
        "....WW..", //
        "....W...", //
        "......W.", //
        "........", //
    ]);
    let mut game = SimpleReversiGame::from_parts(board, Stone::Black);
    assert_eq!(
        game.put_stone(2, 0),
        Err(ReversiError::GameOverWithWinner(Stone::White))
    );
    assert_eq!(game.board().count(Stone::Black), 3);
    assert_eq!(game.board().count(Stone::White), 4);
}
