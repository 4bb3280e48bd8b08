//! Message storage and indexing for a group and direct messaging service:
//! canonical conversation keys, derived message ids, ordered message logs,
//! reply threads, reaction toggling and unread counts.
//!
//! The state is a [`curb::Curb`]. Every operation on it takes a state that
//! is well formed and leaves one that is; [`curb::Curb::is_well_formed`]
//! tells whether a state that was put together elsewhere is one. An
//! operation that is rejected returns an [`curb::Error`] and changes nothing.

pub mod order;
pub mod message;
pub mod digest;
pub mod names;
pub mod conversation;
pub mod chats;
pub mod curb;
pub mod groups;
pub mod messaging;
pub mod queries;
pub mod laws;
pub mod validity;
