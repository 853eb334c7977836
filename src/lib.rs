//! Session bookkeeping for end-to-end encrypted one-to-one channels:
//! which remote devices need a new session, which sessions look wedged,
//! and which recovery messages wait to be sent.

pub mod collections;
pub mod order;
pub mod requests;
pub mod session_manager;
pub mod laws;
