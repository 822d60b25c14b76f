//! Incremental pinyin input for a language server backed by the Rime engine.

/// Text helpers: string deltas, sort keys, words and encodings.
pub mod utils;

/// The grammar of the pinyin typed at the end of a line.
pub mod grammar;

/// The input read from a line, and the keys that bring an engine session to it.
pub mod input;

/// Candidates and responses read from the engine.
pub mod rime;

/// The server's options.
pub mod config;

/// Completion items built from the engine's candidates.
pub mod completion;

/// Documents, and positions within them.
pub mod document;
