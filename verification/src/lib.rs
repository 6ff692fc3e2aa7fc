//! Data and consistency core of a social-network backend.
//!
//! Entities (users, posts, chats) own their authoritative state and are
//! mutated through operations that also report the fan-out notifications a
//! hosting runtime must deliver to the per-user index views (owned posts,
//! chats, timeline).  All state transitions, the query grammar, the snapshot
//! framing and the sharding helper are verified; calls into outside crates
//! (hashing, id minting, email validation, lowercasing) stand behind small
//! trusted wrappers.

pub mod chat;
pub mod common;
pub mod idgen;
pub mod idmap;
pub mod ids;
pub mod poll;
pub mod post;
pub mod query;
pub mod shard;
pub mod snapshot;
pub mod strutil;
pub mod updater;
pub mod user;
pub mod user_chats;
pub mod user_posts;
pub mod user_timeline;
