//! The order book and what drives it.

pub mod crossing;
pub mod depth;
pub mod engine;
pub mod laws;
pub mod log;
pub mod naming;
pub mod order_book;
pub mod ordering;
