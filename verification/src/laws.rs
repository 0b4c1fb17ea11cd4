//! Laws of the language: what holds of every program, state and host.

pub mod state;
pub mod depth;
pub mod forms;
pub mod calls;
pub mod recursion;
pub mod order;
pub mod parsing;
