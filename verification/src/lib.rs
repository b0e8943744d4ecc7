//! Nostr relay protocol frames, forum message shaping, and the durable
//! retention of events, as verified functions over plain values.

pub mod text;
pub mod json;
pub mod event;
pub mod protocol;
pub mod forum;
pub mod scope;
pub mod retained_event;
pub mod retention;
pub mod tombstone;
pub mod sqlite;
