//! A verified Reversi (Othello) engine: an 8x8 board with the classic
//! flip-run rules, a turn-managing game type, and a family of computer
//! opponents (random, greedy, weighted-heuristic).
pub mod stone;
pub mod board;
pub mod engine;
pub mod strategy;
pub mod player;
pub mod game;

pub use board::Point;
pub use game::Color;
pub use game::ComputerStrength;
pub use game::Game;
pub use game::GameStatus;
pub use game::color_to_string;
pub use game::str_to_computer_strength;
