//! What the operations of the library are for, stated of what they are given and what they give
//! back: bytes, numbers and texts.

pub mod answers;
pub mod buffers;
pub mod callers;
pub mod connections;
pub mod failures;
pub mod frames;
pub mod requests;
pub mod sessions;
pub mod texts;
pub mod transfers;
pub mod upgrades;
