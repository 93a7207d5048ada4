//! Exploration of the configuration graphs of twisty permutation puzzles: canonical state
//! keys, permutation ranking, exhaustive breadth-first pattern databases and an
//! iterative-deepening solver guided by them.
pub mod codec;
pub mod known_states;
pub mod lehmer_code;
pub mod menu;
pub mod models;
pub mod pattern_database;
pub mod scramble_generator;
pub mod solver;
pub mod successor_queue;
pub mod text;
