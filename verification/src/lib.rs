//! Plans and collects the runs of one templated command per value, each
//! child on a pseudo-terminal of its own.
//!
//! The crate holds the rules of the tool: how a placeholder is substituted
//! into a command template, how an argument list becomes a set of planned
//! children, and how the messages of the readers are turned into output
//! and retirements. Opening terminals, spawning and reading are left to the
//! program that uses it.

pub mod pattern;
pub mod interpolator;
pub mod terminal;
pub mod programs;
pub mod collector;
