//! Keystroke capture for terminal prompts: a key decoder, a line-editing
//! buffer, a positional input mask and an incremental select widget.
//!
//! Every function here is pure: callers read the terminal, hand the library
//! what arrived, and write what it tells them to write.

pub mod automaton;
pub mod edit;
pub mod filter;
pub mod flags;
pub mod input;
pub mod mask;
pub mod mask_laws;
pub mod mask_mode;
pub mod outcome;
pub mod output;
pub mod pattern;
pub mod read_loop;
pub mod render;
pub mod select;
