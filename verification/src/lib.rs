//! A toolchain for a tape-machine language written in two dialects: a base
//! dialect of eight instruction symbols, and a shifted dialect obtained from it
//! by rotating every symbol through the alphabet by its position in the text.
//!
//! The crate filters instruction symbols out of raw text, transcodes between
//! the two dialects, and executes base-dialect programs one instruction at a
//! time on a circular byte tape.

pub mod alphabet;
pub mod brackets;
pub mod filter;
pub mod machine;
pub mod mode;
pub mod transcoder;
