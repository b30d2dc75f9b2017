//! A verified execution engine for an eight-instruction tape language.
//!
//! A program is a sequence of characters working on a tape of byte cells with
//! a movable data pointer. The engine is a state machine: every instruction
//! is one transition, and the caller performs the character input and output
//! that a transition asks for.

pub mod brackets;
pub mod semantics;
pub mod laws;
pub mod loops;
pub mod machine;
pub mod console;
