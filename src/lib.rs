//! Evolution of game-playing bots for small two-player board games: circuit
//! genomes, two board games, a match simulator with an exhaustive mode,
//! fitness aggregation and the decisions of the generational loop.

pub mod board;
pub mod circuit;
pub mod config;
pub mod connect4;
pub mod errors;
pub mod evolution;
pub mod game;
pub mod naughts;
pub mod nodes;
pub mod player;
pub mod recipe;
pub mod result;
pub mod rng;
pub mod simulator;
pub mod stack_search;
pub mod text;
pub mod world;
