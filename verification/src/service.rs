//! The chat service: the registry and the log behind the three operations
//! that a transport calls.

use crate::member::Member;
use crate::message::{messages_view, ChatMessage};
use crate::message_log::MessageLog;
use crate::model::{
    registry_has_username, text_units, ChatMessageView, ChatState, MAX_MESSAGE_UNITS,
};
use crate::outcome::{post_outcome, ChatError, JoinResult};
use crate::registry::MembershipRegistry;
use vstd::prelude::*;

verus! {

/// The state of one chat room. `join` and `post` borrow the service for
/// themselves and reads share it, so a holder that hands it to several tasks
/// puts it behind a lock that grants just that.
#[derive(Debug)]
pub struct ChatService {
    registry: MembershipRegistry,
    log: MessageLog,
}

/// A service is its registry and its log, each as its model.
impl View for ChatService {
    type V = ChatState;

    closed spec fn view(&self) -> ChatState {
        ChatState { members: self.registry@, log: self.log@ }
    }
}

/// The messages of a successful read, as plain values.
pub open spec fn read_outcome(result: Result<Vec<ChatMessage>, ChatError>) -> Result<
    Seq<ChatMessageView>,
    ChatError,
> {
    match result {
        Ok(messages) => Ok(messages_view(messages@)),
        Err(error) => Err(error),
    }
}

impl Default for ChatService {
    fn default() -> (service: ChatService)
        ensures
            service.well_formed(),
            service@ == ChatState::initial(),
    {
        ChatService::new()
    }
}

impl ChatService {
    /// The service's invariant: that of its registry and that of its log.
    /// `new` establishes it, and `join` and `post` keep it.
    pub open spec fn well_formed(&self) -> bool {
        self@.well_formed()
    }

    /// A service that nobody has joined and nothing was posted to.
    pub fn new() -> (service: ChatService)
        ensures
            service.well_formed(),
            service@ == ChatState::initial(),
    {
        ChatService { registry: MembershipRegistry::new(), log: MessageLog::new() }
    }

    /// The number of members.
    pub fn member_count(&self) -> (count: usize)
        ensures
            count == self@.members.len(),
    {
        self.registry.len()
    }

    /// The number of messages in the log.
    pub fn message_count(&self) -> (count: usize)
        ensures
            count == self@.log.len(),
    {
        self.log.len()
    }

    /// Registers `member` and answers with its token, unless a field is empty
    /// or the username is taken: then nothing changes and the answer is a
    /// denial, which does not say why.
    pub fn join(&mut self, member: Member) -> (result: JoinResult)
        requires
            old(self).well_formed(),
            old(self)@.admits(member@) ==> old(self)@.members.len() < usize::MAX,
        ensures
            final(self).well_formed(),
            (final(self)@, result@) == old(self)@.join(member@),
            result is Denied <==> member@.username.len() == 0 || member@.password.len() == 0
                || registry_has_username(old(self)@.members, member@.username),
            result is Denied ==> final(self)@ == old(self)@,
            result matches JoinResult::Accepted { token } ==> {
                &&& token == old(self)@.members.len() + 1
                &&& !old(self)@.members.contains_key(token as nat)
                &&& final(self)@.members == old(self)@.members.insert(token as nat, member@)
                &&& final(self)@.log == old(self)@.log
            },
    {
        if member.username.as_str().is_empty() || member.password.as_str().is_empty()
            || self.registry.has_username(&member.username) {
            JoinResult::Denied
        } else {
            let token = self.registry.register(member);
            JoinResult::Accepted { token }
        }
    }

    /// Appends `text` to the log under the username that `token` stands for,
    /// and returns the message's sequence number. A text over the maximum is
    /// turned down first, whatever the token; then an unknown token.
    pub fn post(&mut self, token: u64, text: String) -> (result: Result<u64, ChatError>)
        requires
            old(self).well_formed(),
            old(self)@.post(token as nat, text@).1 is Ok ==> old(self)@.log.len() < usize::MAX,
        ensures
            final(self).well_formed(),
            (final(self)@, post_outcome(result)) == old(self)@.post(token as nat, text@),
            result == Err::<u64, ChatError>(ChatError::MessageTooLong) <==> text_units(text@)
                > MAX_MESSAGE_UNITS,
            result == Err::<u64, ChatError>(ChatError::Unauthorized) <==> text_units(text@)
                <= MAX_MESSAGE_UNITS && !old(self)@.members.contains_key(token as nat),
            result is Err ==> final(self)@ == old(self)@,
            result matches Ok(sequence_number) ==> {
                &&& sequence_number == old(self)@.log.len() + 1
                &&& final(self)@.members == old(self)@.members
                &&& final(self)@.log == old(self)@.log.push(
                    ChatMessageView {
                        sequence_number: sequence_number as nat,
                        username: old(self)@.members[token as nat].username,
                        text: text@,
                    },
                )
            },
    {
        if text.as_str().as_bytes().len() > MAX_MESSAGE_UNITS {
            return Err(ChatError::MessageTooLong);
        }
        match self.registry.resolve_username(token) {
            Some(username) => Ok(self.log.append(username, text)),
            None => Err(ChatError::Unauthorized),
        }
    }

    /// A copy of the whole log for the holder of a known token, in ascending
    /// sequence order. `after` is taken and not applied.
    pub fn read_log(&self, token: u64, after: u64) -> (result: Result<Vec<ChatMessage>, ChatError>)
        ensures
            read_outcome(result) == self@.read_log(token as nat, after as nat),
            result is Ok <==> self@.members.contains_key(token as nat),
            result matches Ok(messages) ==> {
                &&& messages_view(messages@) == self@.log
                &&& self.well_formed() ==> forall|i: int|
                    0 <= i < messages.len() ==> (#[trigger] messages[i]).sequence_number == i + 1
            },
            result matches Err(error) ==> error == ChatError::Unauthorized,
    {
        match self.registry.resolve_username(token) {
            Some(_) => Ok(self.log.read_from(after)),
            None => Err(ChatError::Unauthorized),
        }
    }
}

} // verus!
