//! What holds of every run of the service: of any sequence of requests served
//! one after the other from a well-formed state.

use crate::model::{
    lemma_register_keeps_well_formed, registry_has_username, text_units, ChatState, JoinOutcome,
    MemberView, Request, Response, MAX_MESSAGE_UNITS,
};
use crate::outcome::ChatError;
use vstd::prelude::*;

verus! {

/// `later` holds all that `earlier` holds: each token of `earlier` still
/// stands for the same member, and the log of `earlier` is the start of the
/// log of `later`.
pub open spec fn extends(later: ChatState, earlier: ChatState) -> bool {
    &&& forall|t: nat| #[trigger]
        earlier.members.contains_key(t) ==> later.members.contains_key(t) && later.members[t]
            == earlier.members[t]
    &&& earlier.log.len() <= later.log.len()
    &&& forall|k: int| 0 <= k < earlier.log.len() ==> #[trigger] later.log[k] == earlier.log[k]
}

/// The state that a service starts in is well-formed, and no token opens it.
pub proof fn lemma_initial_is_well_formed()
    ensures
        ChatState::initial().well_formed(),
        forall|token: nat| !ChatState::initial().members.contains_key(token),
{
}

/// No request breaks the invariant, removes a member, or touches a message
/// that is already in the log.
pub proof fn lemma_step_keeps_well_formed(s: ChatState, request: Request)
    requires
        s.well_formed(),
    ensures
        s.step(request).0.well_formed(),
        extends(s.step(request).0, s),
{
    match request {
        Request::Join { member } => {
            if s.admits(member) {
                lemma_register_keeps_well_formed(s.members, member);
            }
        },
        Request::Post { token, text } => {},
        Request::ReadLog { token, after } => {},
    }
}

/// Request `i` takes the state in which it is served to the state in which
/// request `i + 1` is served.
pub proof fn lemma_before_next(s: ChatState, requests: Seq<Request>, i: int)
    requires
        0 <= i < requests.len(),
    ensures
        s.before(requests, i + 1) == s.before(requests, i).step(requests[i]).0,
{
    assert(requests.take(i + 1).drop_last() =~= requests.take(i));
}

/// Every state that a run passes through is well-formed and extends the
/// states before it.
pub proof fn lemma_run_grows(s: ChatState, requests: Seq<Request>, i: int, j: int)
    requires
        s.well_formed(),
        0 <= i <= j <= requests.len(),
    ensures
        s.before(requests, i).well_formed(),
        s.before(requests, j).well_formed(),
        extends(s.before(requests, j), s.before(requests, i)),
    decreases j,
{
    if j > 0 {
        lemma_run_grows(s, requests, if i < j { i } else { j - 1 }, j - 1);
        lemma_before_next(s, requests, j - 1);
        lemma_step_keeps_well_formed(s.before(requests, j - 1), requests[j - 1]);
    }
}

/// The state after the whole run is the state "before" the request that
/// would come next.
pub proof fn lemma_run_is_last(s: ChatState, requests: Seq<Request>)
    ensures
        s.run(requests) == s.before(requests, requests.len() as int),
{
    assert(requests.take(requests.len() as int) =~= requests);
}

/// A join under a username that some member already goes by is denied,
/// wherever in the run it comes.
pub proof fn lemma_taken_username_denied(
    s: ChatState,
    requests: Seq<Request>,
    i: int,
    j: int,
    member: MemberView,
)
    requires
        s.well_formed(),
        0 <= i <= j < requests.len(),
        registry_has_username(s.before(requests, i).members, member.username),
        requests[j] == (Request::Join { member }),
    ensures
        s.response(requests, j) == Response::Joined(JoinOutcome::Denied),
        s.before(requests, j + 1) == s.before(requests, j),
{
    lemma_run_grows(s, requests, i, j);
    lemma_before_next(s, requests, j);
    let held = s.before(requests, i).members;
    let t = choose|t: nat| #[trigger] held.contains_key(t) && held[t].username == member.username;
    assert(s.before(requests, j).members.contains_key(t));
}

/// At most one join succeeds per username: once a join has been accepted,
/// every later join under the same username is denied, whatever its password.
pub proof fn lemma_username_joins_once(
    s: ChatState,
    requests: Seq<Request>,
    i: int,
    j: int,
    first: MemberView,
    second: MemberView,
)
    requires
        s.well_formed(),
        0 <= i < j < requests.len(),
        requests[i] == (Request::Join { member: first }),
        requests[j] == (Request::Join { member: second }),
        first.username == second.username,
        s.response(requests, i) is Joined,
        s.response(requests, i)->Joined_0 is Accepted,
    ensures
        s.response(requests, j) == Response::Joined(JoinOutcome::Denied),
{
    lemma_before_next(s, requests, i);
    let token = s.response(requests, i)->Joined_0->token;
    assert(s.before(requests, i + 1).members.contains_key(token));
    lemma_taken_username_denied(s, requests, i + 1, j, second);
}

/// The step of a run at which a token was issued: a token that a member
/// holds and that was not held at the start was handed out by an accepted
/// join of that member.
pub proof fn lemma_token_origin(
    s: ChatState,
    requests: Seq<Request>,
    i: int,
    token: nat,
) -> (j: int)
    requires
        s.well_formed(),
        0 <= i <= requests.len(),
        s.before(requests, i).members.contains_key(token),
        !s.members.contains_key(token),
    ensures
        0 <= j < i,
        requests[j] == (Request::Join { member: s.before(requests, i).members[token] }),
        s.response(requests, j) == Response::Joined(JoinOutcome::Accepted { token }),
    decreases i,
{
    if i == 0 {
        0
    } else {
        lemma_before_next(s, requests, i - 1);
        lemma_run_grows(s, requests, i - 1, i);
        if s.before(requests, i - 1).members.contains_key(token) {
            lemma_token_origin(s, requests, i - 1, token)
        } else {
            i - 1
        }
    }
}

/// A join with both fields present is accepted if nobody went by its
/// username at the start and no earlier join under that username was accepted.
/// Its token is one more than the number of members at that moment.
pub proof fn lemma_free_username_accepted(
    s: ChatState,
    requests: Seq<Request>,
    j: int,
    member: MemberView,
)
    requires
        s.well_formed(),
        0 <= j < requests.len(),
        requests[j] == (Request::Join { member }),
        member.complete(),
        !registry_has_username(s.members, member.username),
        forall|i: int|
            0 <= i < j && (#[trigger] requests[i]) is Join && requests[i]->member.username
                == member.username ==> s.response(requests, i) == Response::Joined(
                JoinOutcome::Denied,
            ),
    ensures
        s.response(requests, j) == Response::Joined(
            JoinOutcome::Accepted { token: s.before(requests, j).members.len() + 1 },
        ),
{
    let held = s.before(requests, j).members;
    if registry_has_username(held, member.username) {
        let t = choose|t: nat| #[trigger] held.contains_key(t) && held[t].username == member.username;
        assert(!s.members.contains_key(t)) by {
            lemma_run_grows(s, requests, 0, j);
        }
        let i = lemma_token_origin(s, requests, j, t);
        assert(requests[i] is Join);
    }
}

/// No two members hold the same token: the tokens of two accepted joins
/// differ, the later is the greater, neither was in use when it was issued,
/// and at the end of the run each still stands for the member that joined
/// with it.
pub proof fn lemma_tokens_never_shared(
    s: ChatState,
    requests: Seq<Request>,
    i: int,
    j: int,
    first: nat,
    second: nat,
)
    requires
        s.well_formed(),
        0 <= i < j < requests.len(),
        s.response(requests, i) == Response::Joined(JoinOutcome::Accepted { token: first }),
        s.response(requests, j) == Response::Joined(JoinOutcome::Accepted { token: second }),
    ensures
        first < second,
        !s.before(requests, i).members.contains_key(first),
        !s.before(requests, j).members.contains_key(second),
        s.run(requests).members.contains_key(first),
        s.run(requests).members.contains_key(second),
        s.run(requests).members[first] == requests[i]->member,
        s.run(requests).members[second] == requests[j]->member,
{
    lemma_before_next(s, requests, i);
    lemma_before_next(s, requests, j);
    lemma_run_grows(s, requests, 0, i);
    lemma_run_grows(s, requests, i + 1, j);
    lemma_register_keeps_well_formed(s.before(requests, i).members, requests[i]->member);
    lemma_register_keeps_well_formed(s.before(requests, j).members, requests[j]->member);
    assert(s.before(requests, i + 1).members.contains_key(first));
    assert(s.before(requests, j + 1).members.contains_key(second));
    lemma_run_is_last(s, requests);
    lemma_run_grows(s, requests, j + 1, requests.len() as int);
    lemma_run_grows(s, requests, i + 1, requests.len() as int);
}

/// The log grows by exactly the posts that were accepted.
pub proof fn lemma_log_counts_posts(s: ChatState, requests: Seq<Request>)
    ensures
        s.run(requests).log.len() == s.log.len() + s.posts_accepted(requests),
    decreases requests.len(),
{
    if requests.len() > 0 {
        lemma_log_counts_posts(s, requests.drop_last());
    }
}

/// Sequence numbers rise without a gap: an accepted post gets the number of
/// messages at the start, plus the number of posts accepted before it in the
/// run, plus one.
pub proof fn lemma_sequence_numbers_count_up(
    s: ChatState,
    requests: Seq<Request>,
    i: int,
    sequence_number: nat,
)
    requires
        0 <= i < requests.len(),
        s.response(requests, i) == Response::Posted(Ok(sequence_number)),
    ensures
        sequence_number == s.log.len() + s.posts_accepted(requests.take(i)) + 1,
{
    lemma_log_counts_posts(s, requests.take(i));
}

/// Sequence numbers are strictly increasing: of two accepted posts the later
/// gets the greater number.
pub proof fn lemma_sequence_numbers_increase(
    s: ChatState,
    requests: Seq<Request>,
    i: int,
    j: int,
    first: nat,
    second: nat,
)
    requires
        s.well_formed(),
        0 <= i < j < requests.len(),
        s.response(requests, i) == Response::Posted(Ok(first)),
        s.response(requests, j) == Response::Posted(Ok(second)),
    ensures
        first < second,
{
    lemma_before_next(s, requests, i);
    lemma_run_grows(s, requests, i + 1, j);
}

/// A message keeps the username that its poster had when it was posted,
/// whatever is served afterwards: at the end of the run the log holds, at the
/// position of its sequence number, the message as it was appended.
pub proof fn lemma_attribution_is_stable(
    s: ChatState,
    requests: Seq<Request>,
    i: int,
    sequence_number: nat,
)
    requires
        s.well_formed(),
        0 <= i < requests.len(),
        s.response(requests, i) == Response::Posted(Ok(sequence_number)),
    ensures
        1 <= sequence_number <= s.run(requests).log.len(),
        s.run(requests).log[sequence_number - 1] == s.posted(requests, i),
        s.posted(requests, i).sequence_number == sequence_number,
        s.posted(requests, i).username == s.before(
            requests,
            i,
        ).members[requests[i]->Post_token].username,
        s.posted(requests, i).text == requests[i]->Post_text,
{
    lemma_before_next(s, requests, i);
    lemma_run_is_last(s, requests);
    lemma_run_grows(s, requests, i + 1, requests.len() as int);
    let appended = s.before(requests, i + 1).log;
    assert(appended[sequence_number - 1] == s.posted(requests, i));
}

/// The length boundary of a post: a text over the maximum is turned down as
/// too long whatever the token, and a text within it is accepted from a
/// member.
pub proof fn lemma_length_boundary(s: ChatState, token: nat, text: Seq<char>)
    ensures
        text_units(text) > MAX_MESSAGE_UNITS ==> s.post(token, text) == (
            s,
            Err::<nat, ChatError>(ChatError::MessageTooLong),
        ),
        text_units(text) <= MAX_MESSAGE_UNITS && s.members.contains_key(token) ==> s.post(
            token,
            text,
        ).1 == Ok::<nat, ChatError>(s.log.len() + 1),
{
}

/// A token that no member held at the start and that no join of the run has
/// handed out so far is turned down: a read fails as unauthorized, and so does
/// a post whose text is within the maximum. Neither changes the state.
pub proof fn lemma_unissued_token_unauthorized(
    s: ChatState,
    requests: Seq<Request>,
    i: int,
    token: nat,
)
    requires
        s.well_formed(),
        0 <= i < requests.len(),
        !s.members.contains_key(token),
        forall|j: int|
            0 <= j < i ==> #[trigger] s.response(requests, j) != Response::Joined(
                JoinOutcome::Accepted { token },
            ),
        requests[i] is ReadLog && requests[i]->ReadLog_token == token || requests[i] is Post
            && requests[i]->Post_token == token && text_units(requests[i]->Post_text)
            <= MAX_MESSAGE_UNITS,
    ensures
        requests[i] is ReadLog ==> s.response(requests, i) == Response::Log(
            Err(ChatError::Unauthorized),
        ),
        requests[i] is Post ==> s.response(requests, i) == Response::Posted(
            Err(ChatError::Unauthorized),
        ),
        s.before(requests, i + 1) == s.before(requests, i),
{
    lemma_before_next(s, requests, i);
    if s.before(requests, i).members.contains_key(token) {
        let j = lemma_token_origin(s, requests, i, token);
        assert(s.response(requests, j) == Response::Joined(JoinOutcome::Accepted { token }));
    }
}

/// A read by a member returns the whole log, whatever `after` is: the
/// messages that were there at the start, then the message of every post
/// accepted so far, each at the position of its sequence number, so in
/// ascending order.
pub proof fn lemma_read_is_complete(
    s: ChatState,
    requests: Seq<Request>,
    i: int,
    token: nat,
    after: nat,
)
    requires
        s.well_formed(),
        0 <= i < requests.len(),
        requests[i] == (Request::ReadLog { token, after }),
        s.before(requests, i).members.contains_key(token),
    ensures
        s.response(requests, i) == Response::Log(Ok(s.before(requests, i).log)),
        s.before(requests, i).log.len() == s.log.len() + s.posts_accepted(requests.take(i)),
        forall|k: int|
            0 <= k < s.before(requests, i).log.len() ==> (#[trigger] s.before(
                requests,
                i,
            ).log[k]).sequence_number == k + 1,
        forall|k: int|
            0 <= k < s.log.len() ==> #[trigger] s.before(requests, i).log[k] == s.log[k],
        forall|j: int|
            0 <= j < i && (#[trigger] s.response(requests, j)) is Posted && s.response(
                requests,
                j,
            )->Posted_0 is Ok ==> {
                let n = s.response(requests, j)->Posted_0->Ok_0;
                &&& 1 <= n <= s.before(requests, i).log.len()
                &&& s.before(requests, i).log[n - 1] == s.posted(requests, j)
            },
{
    lemma_log_counts_posts(s, requests.take(i));
    lemma_run_grows(s, requests, 0, i);
    let log = s.before(requests, i).log;
    assert forall|j: int|
        0 <= j < i && (#[trigger] s.response(requests, j)) is Posted && s.response(
            requests,
            j,
        )->Posted_0 is Ok implies {
        let n = s.response(requests, j)->Posted_0->Ok_0;
        &&& 1 <= n <= log.len()
        &&& log[n - 1] == s.posted(requests, j)
    } by {
        let n = s.response(requests, j)->Posted_0->Ok_0;
        lemma_before_next(s, requests, j);
        lemma_run_grows(s, requests, j + 1, i);
        let appended = s.before(requests, j + 1).log;
        assert(appended[n - 1] == s.posted(requests, j));
    }
}

} // verus!
