//! The mathematical model of the chat state, and what each operation does to it.
//!
//! Tokens and sequence numbers are natural numbers here; the executable types
//! hold them in 64 bits. Text is a sequence of characters, measured by the
//! number of bytes of its UTF-8 encoding.

use crate::outcome::ChatError;
use vstd::prelude::*;
use vstd::utf8::encode_utf8;

verus! {

/// The longest text, in units, that can be posted.
pub const MAX_MESSAGE_UNITS: usize = 50;

/// The length of a text in units: the bytes of its UTF-8 encoding.
pub open spec fn text_units(text: Seq<char>) -> nat {
    encode_utf8(text).len()
}

/// What a member is, as plain sequences of characters.
pub struct MemberView {
    pub username: Seq<char>,
    pub password: Seq<char>,
}

impl MemberView {
    /// Both fields are present.
    pub open spec fn complete(self) -> bool {
        self.username.len() > 0 && self.password.len() > 0
    }
}

/// What a logged message is, as plain values.
pub struct ChatMessageView {
    pub sequence_number: nat,
    pub username: Seq<char>,
    pub text: Seq<char>,
}

/// How a join attempt ended.
pub enum JoinOutcome {
    Accepted { token: nat },
    Denied,
}

/// Some registered member goes by `username`.
pub open spec fn registry_has_username(members: Map<nat, MemberView>, username: Seq<char>) -> bool {
    exists|t: nat| #[trigger] members.contains_key(t) && members[t].username == username
}

/// The token that the next registration gets: one more than the number of members.
pub open spec fn next_token(members: Map<nat, MemberView>) -> nat {
    members.len() + 1
}

/// The registry's invariant: the tokens in use are exactly `1..=n` for `n`
/// members, every member has both fields, and no two tokens share a username.
pub open spec fn registry_well_formed(members: Map<nat, MemberView>) -> bool {
    &&& members.dom().finite()
    &&& forall|t: nat| #[trigger] members.contains_key(t) <==> 1 <= t <= members.len()
    &&& forall|t: nat| #[trigger] members.contains_key(t) ==> members[t].complete()
    &&& forall|t1: nat, t2: nat|
        #![trigger members.contains_key(t1), members.contains_key(t2)]
        members.contains_key(t1) && members.contains_key(t2) && t1 != t2 ==> members[t1].username
            != members[t2].username
}

/// Registering a complete member whose username is free, under the next
/// token, takes a token that nobody holds and keeps the registry's invariant.
pub proof fn lemma_register_keeps_well_formed(members: Map<nat, MemberView>, member: MemberView)
    requires
        registry_well_formed(members),
        member.complete(),
        !registry_has_username(members, member.username),
    ensures
        !members.contains_key(next_token(members)),
        registry_well_formed(members.insert(next_token(members), member)),
        members.insert(next_token(members), member).len() == members.len() + 1,
{
    let token = next_token(members);
    let grown = members.insert(token, member);
    assert(!members.contains_key(token));
    assert forall|t1: nat, t2: nat|
        grown.contains_key(t1) && grown.contains_key(t2) && t1 != t2 implies grown[t1].username
        != grown[t2].username by {
        // whichever of the two is not the new token belongs to a member of before
        if t1 != token {
            assert(members.contains_key(t1));
        }
        if t2 != token {
            assert(members.contains_key(t2));
        }
    }
}

impl ChatMessageView {
    /// The message is attributed to somebody and its text is within the maximum.
    pub open spec fn bounded(self) -> bool {
        self.username.len() > 0 && text_units(self.text) <= MAX_MESSAGE_UNITS
    }
}

/// The log's invariant: the message at position `i` carries sequence number
/// `i + 1`, so the numbers start at 1 and rise without a gap; and every
/// message is bounded.
pub open spec fn log_well_formed(log: Seq<ChatMessageView>) -> bool {
    forall|i: int|
        0 <= i < log.len() ==> (#[trigger] log[i]).sequence_number == i + 1 && log[i].bounded()
}

/// The message that an append of `text` under `username` adds to `log`.
pub open spec fn next_message(
    log: Seq<ChatMessageView>,
    username: Seq<char>,
    text: Seq<char>,
) -> ChatMessageView {
    ChatMessageView { sequence_number: log.len() + 1, username, text }
}

/// A request as the transport hands it over.
pub enum Request {
    Join { member: MemberView },
    Post { token: nat, text: Seq<char> },
    ReadLog { token: nat, after: nat },
}

/// The answer to a request.
pub enum Response {
    Joined(JoinOutcome),
    Posted(Result<nat, ChatError>),
    Log(Result<Seq<ChatMessageView>, ChatError>),
}

/// The whole state of the service: who holds which token, and what was posted.
pub struct ChatState {
    pub members: Map<nat, MemberView>,
    pub log: Seq<ChatMessageView>,
}

impl ChatState {
    /// The state of a service that nobody has joined yet.
    pub open spec fn initial() -> ChatState {
        ChatState { members: Map::empty(), log: Seq::empty() }
    }

    /// The invariant of every state that the service can reach.
    pub open spec fn well_formed(self) -> bool {
        registry_well_formed(self.members) && log_well_formed(self.log)
    }

    /// A join is accepted when both fields are present and the username is free.
    pub open spec fn admits(self, member: MemberView) -> bool {
        member.complete() && !registry_has_username(self.members, member.username)
    }

    /// The state after a join attempt, and its outcome.
    pub open spec fn join(self, member: MemberView) -> (ChatState, JoinOutcome) {
        if self.admits(member) {
            let token = next_token(self.members);
            (
                ChatState { members: self.members.insert(token, member), log: self.log },
                JoinOutcome::Accepted { token },
            )
        } else {
            (self, JoinOutcome::Denied)
        }
    }

    /// The state after a post attempt, and the sequence number or the failure.
    /// The length is tested before the token.
    pub open spec fn post(self, token: nat, text: Seq<char>) -> (ChatState, Result<nat, ChatError>) {
        if text_units(text) > MAX_MESSAGE_UNITS {
            (self, Err(ChatError::MessageTooLong))
        } else if !self.members.contains_key(token) {
            (self, Err(ChatError::Unauthorized))
        } else {
            let message = next_message(self.log, self.members[token].username, text);
            (
                ChatState { members: self.members, log: self.log.push(message) },
                Ok(message.sequence_number),
            )
        }
    }

    /// What a reader gets: the whole log for a known token, whatever `after` is.
    pub open spec fn read_log(self, token: nat, after: nat) -> Result<
        Seq<ChatMessageView>,
        ChatError,
    > {
        if self.members.contains_key(token) {
            Ok(self.log)
        } else {
            Err(ChatError::Unauthorized)
        }
    }

    /// The state after one request, and the answer to it.
    pub open spec fn step(self, request: Request) -> (ChatState, Response) {
        match request {
            Request::Join { member } => {
                let (next, outcome) = self.join(member);
                (next, Response::Joined(outcome))
            },
            Request::Post { token, text } => {
                let (next, outcome) = self.post(token, text);
                (next, Response::Posted(outcome))
            },
            Request::ReadLog { token, after } => (self, Response::Log(self.read_log(token, after))),
        }
    }

    /// The state after the requests were served one after the other. Requests
    /// that arrive together are served in some order: each of `join` and
    /// `post` has the state to itself.
    pub open spec fn run(self, requests: Seq<Request>) -> ChatState
        decreases requests.len(),
    {
        if requests.len() == 0 {
            self
        } else {
            self.run(requests.drop_last()).step(requests.last()).0
        }
    }

    /// The state in which request `i` of the run is served.
    pub open spec fn before(self, requests: Seq<Request>, i: int) -> ChatState {
        self.run(requests.take(i))
    }

    /// The answer that request `i` of the run gets.
    pub open spec fn response(self, requests: Seq<Request>, i: int) -> Response {
        self.before(requests, i).step(requests[i]).1
    }

    /// The message that request `i` of the run, a post, adds to the log when
    /// it is accepted: attributed to the holder of its token at that moment.
    pub open spec fn posted(self, requests: Seq<Request>, i: int) -> ChatMessageView {
        let at = self.before(requests, i);
        next_message(at.log, at.members[requests[i]->Post_token].username, requests[i]->Post_text)
    }

    /// The number of posts in the run that were accepted.
    pub open spec fn posts_accepted(self, requests: Seq<Request>) -> nat
        decreases requests.len(),
    {
        if requests.len() == 0 {
            0
        } else {
            let earlier = self.posts_accepted(requests.drop_last());
            match self.run(requests.drop_last()).step(requests.last()).1 {
                Response::Posted(Ok(_)) => earlier + 1,
                _ => earlier,
            }
        }
    }
}

} // verus!
