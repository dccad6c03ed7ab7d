//! A follow reader for an append-only byte stream.
//!
//! The verified core keeps a bounded window over the bytes that one
//! underlying read produced, extracts delimiter-terminated records from it
//! step by step, masks transient read faults, and appends decoded text with
//! rollback on malformed input.

pub mod buffer;
pub mod masking;
pub mod scanner;
pub mod text;
