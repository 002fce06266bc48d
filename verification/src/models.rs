//! Values that enter and leave the engine.

pub mod decimal;
pub mod models;
pub mod types;
