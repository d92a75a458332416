//! A line-oriented text transformer driven by a compact, vim-inspired
//! command language.
//!
//! A command such as `wdwA/!/` is a row of cursor motions and edits. It is
//! read once ([`parse`]), and then carried out on every line of the input
//! on its own ([`engine`]), many lines side by side ([`exec`]); the lines
//! come out in the order in which they came in.
//!
//! Lines are sequences of Unicode scalar values, and every index counts
//! scalar values. What each function does is stated in its contract over
//! these sequences and proved.

pub mod cmd;
pub mod engine;
pub mod exec;
pub mod line;
pub mod op;
pub mod parse;
pub mod text;
