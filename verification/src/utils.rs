//! Small building blocks: a bitmap, the window over order ids, an error that
//! carries a message.

pub mod bitmap;
pub mod error;
pub mod window;
