//! A message as the log keeps it.

use crate::model::ChatMessageView;
use vstd::prelude::*;

verus! {

/// One entry of the log: its position, who posted it, and what was said.
/// The username is the poster's at the time of posting.
#[derive(Clone, Debug, PartialEq, Eq)]
pub struct ChatMessage {
    pub sequence_number: u64,
    pub username: String,
    pub text: String,
}

impl View for ChatMessage {
    type V = ChatMessageView;

    open spec fn view(&self) -> ChatMessageView {
        ChatMessageView {
            sequence_number: self.sequence_number as nat,
            username: self.username@,
            text: self.text@,
        }
    }
}

/// A sequence of messages, each as plain values.
pub open spec fn messages_view(messages: Seq<ChatMessage>) -> Seq<ChatMessageView> {
    messages.map_values(|m: ChatMessage| m@)
}

} // verus!
