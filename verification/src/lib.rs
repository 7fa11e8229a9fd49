//! A territory-claiming board game for two sandboxed bots: the cell model,
//! the board engine, the call protocol of a bot handle and the turn
//! scheduler, each with a proved contract.

pub mod arena;
pub mod board;
pub mod engine;
pub mod error;
pub mod game;
pub mod host;
pub mod player;
pub mod region;
