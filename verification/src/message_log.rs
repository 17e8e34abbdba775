//! The message log: an append-only sequence of messages in posting order.

use crate::message::{messages_view, ChatMessage};
use crate::model::{log_well_formed, next_message, text_units, ChatMessageView, MAX_MESSAGE_UNITS};
use vstd::prelude::*;

verus! {

/// Everything that was posted, oldest first.
#[derive(Debug)]
pub struct MessageLog {
    messages: Vec<ChatMessage>,
}

/// A log is the sequence of its messages, oldest first.
impl View for MessageLog {
    type V = Seq<ChatMessageView>;

    closed spec fn view(&self) -> Seq<ChatMessageView> {
        messages_view(self.messages@)
    }
}

impl Default for MessageLog {
    fn default() -> (log: MessageLog)
        ensures
            log.well_formed(),
            log@ == Seq::<ChatMessageView>::empty(),
    {
        MessageLog::new()
    }
}

impl MessageLog {
    /// The log's invariant: `new` establishes it and `append` keeps it.
    pub open spec fn well_formed(&self) -> bool {
        log_well_formed(self@)
    }

    /// A log without messages.
    pub fn new() -> (log: MessageLog)
        ensures
            log.well_formed(),
            log@ == Seq::<ChatMessageView>::empty(),
    {
        MessageLog { messages: Vec::new() }
    }

    /// The number of messages.
    pub fn len(&self) -> (count: usize)
        ensures
            count == self@.len(),
    {
        self.messages.len()
    }

    /// Appends a message under the next sequence number and returns that
    /// number. The caller has resolved the username and checked the length.
    pub fn append(&mut self, username: String, text: String) -> (sequence_number: u64)
        requires
            old(self).well_formed(),
            username@.len() > 0,
            text_units(text@) <= MAX_MESSAGE_UNITS,
            old(self)@.len() < usize::MAX,
        ensures
            final(self).well_formed(),
            sequence_number == old(self)@.len() + 1,
            final(self)@ == old(self)@.push(next_message(old(self)@, username@, text@)),
    {
        let sequence_number = (self.messages.len() + 1) as u64;
        let message = ChatMessage { sequence_number, username, text };
        self.messages.push(message);
        assert(self@ =~= old(self)@.push(next_message(old(self)@, username@, text@)));
        sequence_number
    }

    /// A copy of the whole log, in ascending sequence order. `after` is taken
    /// and not applied: the result is never trimmed.
    #[allow(unused_variables)]
    pub fn read_from(&self, after: u64) -> (messages: Vec<ChatMessage>)
        ensures
            messages_view(messages@) == self@,
            self.well_formed() ==> forall|i: int|
                0 <= i < messages.len() ==> (#[trigger] messages[i]).sequence_number == i + 1,
    {
        let mut messages: Vec<ChatMessage> = Vec::new();
        for message in it: self.messages.iter()
            invariant
                it.seq().unref() == self.messages@,
                messages.len() == it.index(),
                forall|j: int| 0 <= j < it.index() ==> (#[trigger] messages[j])@ == self.messages[j]@,
        {
            messages.push(
                ChatMessage {
                    sequence_number: message.sequence_number,
                    username: message.username.clone(),
                    text: message.text.clone(),
                },
            );
        }
        assert forall|i: int|
            self.well_formed() && 0 <= i < messages.len() implies (#[trigger] messages[i]).sequence_number
            == i + 1 by {
            assert(self@[i] == messages[i]@);
        }
        messages
    }
}

} // verus!
