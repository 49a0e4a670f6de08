//! What holds of the relay as a whole.

pub mod effects;
pub mod focus;
pub mod forwarding;
pub mod sending;
pub mod stream;
pub mod wire;
pub mod words;
