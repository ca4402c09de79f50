//! A message in one of four shapes, each with its own payload.

use vstd::prelude::*;

verus! {

/// A message: a request to quit, a move to a position, a text to write, or
/// a colour given by three components.
pub enum Message {
    Quit,
    Move { x: i32, y: i32 },
    Write(String),
    ChangeColor(i32, i32, i32),
}

impl Message {
    /// Delivers the message. Nothing listens, so nothing happens.
    pub fn call(&self) {
    }
}

} // verus!
