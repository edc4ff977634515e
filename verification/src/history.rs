//! Conversations with an AI provider.

use vstd::prelude::*;
use crate::ai_client::ChatMessage;

verus! {

#[verifier::external_type_specification]
#[verifier::external_body]
pub struct ExUuid(uuid::Uuid);

/// A UTC instant: whole seconds since the Unix epoch and the nanoseconds
/// past that second.
#[derive(Debug, Clone, Copy, PartialEq, Eq, Structural)]
pub struct UtcTimestamp {
    pub secs: i64,
    pub nanos: u32,
}

/// A conversation: a random id, when it started, and its messages.
#[derive(Debug)]
pub struct Conversation {
    pub id: uuid::Uuid,
    pub timestamp: UtcTimestamp,
    pub messages: Vec<ChatMessage>,
}

impl Conversation {
    /// A new conversation with the id `id`, started at `timestamp`. The id
    /// is drawn at random and the time read from the clock by the caller,
    /// where a failing random source or clock can be handled.
    pub fn new(messages: Vec<ChatMessage>, id: uuid::Uuid, timestamp: UtcTimestamp) -> (c: Self)
        ensures
            c.messages.deep_view() == messages.deep_view(),
            c.id == id,
            c.timestamp == timestamp,
    {
        Conversation { id, timestamp, messages }
    }

    /// Saving keeps nothing yet and always succeeds.
    pub fn save(&self) -> (r: Result<(), String>)
        ensures
            r is Ok,
    {
        Ok(())
    }
}

} // verus!
