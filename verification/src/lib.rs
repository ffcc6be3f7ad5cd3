//! A peppered-hashing and secret-recording library.
//!
//! The library models a small interactive session: an operator edits a line
//! of text with a character-index cursor, submits it to be hashed with a
//! fresh 32-byte random pepper, and may export the recorded
//! (pepper, plaintext) ledger as a structured document that parses back to
//! the very same ledger.

pub mod export;
pub mod hashing;
pub mod hexcode;
pub mod session;
