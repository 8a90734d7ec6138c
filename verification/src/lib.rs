//! Local persistence and consistency engine for a one-device chat client.
//!
//! The [`store::Store`] holds the relational state of the client: users,
//! chats, participants, conversations, messages, per-recipient receipts,
//! and the contact graph (groups, user links, contacts, agents).  Every
//! operation behaves like a single database transaction: it either applies
//! all of its writes or leaves the store untouched.

pub mod error;
pub mod rows;
pub mod keys;
pub mod store;
pub mod messaging;
pub mod contacts;
pub mod queries;
