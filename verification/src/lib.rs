//! Core of a single-product exchange: a price-time-priority limit order book,
//! the time-in-force policy around it, the window that suppresses replayed
//! order ids, and the decisions of the tasks that move orders, events and
//! snapshots between the book and the outside world.

pub mod config;
pub mod matching;
pub mod models;
pub mod utils;
