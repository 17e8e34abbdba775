use chat_core::member::Member;
use chat_core::message::ChatMessage;
use chat_core::outcome::{ChatError, JoinResult};
use chat_core::service::ChatService;

fn member(username: &str, password: &str) -> Member {
    Member::new(username.to_string(), password.to_string())
}

fn message(sequence_number: u64, username: &str, text: &str) -> ChatMessage {
    ChatMessage { sequence_number, username: username.to_string(), text: text.to_string() }
}

#[test]
fn two_members_join_post_and_read() {
    let mut service = ChatService::new();
    assert_eq!(service.join(member("alice", "p1")), JoinResult::Accepted { token: 1 });
    assert_eq!(service.join(member("alice", "p2")), JoinResult::Denied);
    assert_eq!(service.join(member("bob", "p1")), JoinResult::Accepted { token: 2 });
    assert_eq!(service.post(1, "hi".to_string()), Ok(1));
    assert_eq!(service.post(2, "yo".to_string()), Ok(2));
    assert_eq!(
        service.read_log(1, 0),
        Ok(vec![message(1, "alice", "hi"), message(2, "bob", "yo")])
    );
}

#[test]
fn new_service_is_empty() {
    let service = ChatService::new();
    assert_eq!(service.member_count(), 0);
    assert_eq!(service.message_count(), 0);
    assert_eq!(service.read_log(1, 0), Err(ChatError::Unauthorized));
}

#[test]
fn default_service_is_empty() {
    let mut service = ChatService::default();
    assert_eq!(service.member_count(), 0);
    assert_eq!(service.message_count(), 0);
    assert_eq!(service.join(member("alice", "pw1")), JoinResult::Accepted { token: 1 });
}

#[test]
fn duplicate_username_is_denied_every_time() {
    let mut service = ChatService::new();
    assert_eq!(service.join(member("alice", "pw1")), JoinResult::Accepted { token: 1 });
    assert_eq!(service.join(member("alice", "pw1")), JoinResult::Denied);
    assert_eq!(service.join(member("alice", "other")), JoinResult::Denied);
    assert_eq!(service.join(member("bob", "pw1")), JoinResult::Accepted { token: 2 });
    assert_eq!(service.join(member("alice", "pw1")), JoinResult::Denied);
    assert_eq!(service.member_count(), 2);
}

#[test]
fn denied_join_changes_nothing() {
    let mut service = ChatService::new();
    assert_eq!(service.join(member("alice", "pw1")), JoinResult::Accepted { token: 1 });
    assert_eq!(service.join(member("alice", "pw2")), JoinResult::Denied);
    assert_eq!(service.member_count(), 1);
    assert_eq!(service.read_log(2, 0), Err(ChatError::Unauthorized));
    assert_eq!(service.join(member("carol", "pw3")), JoinResult::Accepted { token: 2 });
}

#[test]
fn usernames_are_matched_exactly() {
    let mut service = ChatService::new();
    assert_eq!(service.join(member("alice", "p")), JoinResult::Accepted { token: 1 });
    assert_eq!(service.join(member("Alice", "p")), JoinResult::Accepted { token: 2 });
    assert_eq!(service.join(member("alice ", "p")), JoinResult::Accepted { token: 3 });
    assert_eq!(service.join(member("alic", "p")), JoinResult::Accepted { token: 4 });
    assert_eq!(service.join(member("Alice", "q")), JoinResult::Denied);
}

#[test]
fn join_without_username_is_denied() {
    let mut service = ChatService::new();
    assert_eq!(service.join(member("", "pw1")), JoinResult::Denied);
    assert_eq!(service.member_count(), 0);
    assert_eq!(service.join(member("alice", "pw1")), JoinResult::Accepted { token: 1 });
}

#[test]
fn join_without_password_is_denied() {
    let mut service = ChatService::new();
    assert_eq!(service.join(member("alice", "")), JoinResult::Denied);
    assert_eq!(service.member_count(), 0);
    assert_eq!(service.join(member("alice", "pw1")), JoinResult::Accepted { token: 1 });
}

#[test]
fn same_password_may_be_shared() {
    let mut service = ChatService::new();
    assert_eq!(service.join(member("alice", "secret")), JoinResult::Accepted { token: 1 });
    assert_eq!(service.join(member("bob", "secret")), JoinResult::Accepted { token: 2 });
}

#[test]
fn tokens_count_up_from_one() {
    let mut service = ChatService::new();
    let mut tokens = Vec::new();
    for i in 0..20u64 {
        let result = service.join(member(&format!("user{}", i), "pw"));
        assert!(result.is_accepted());
        tokens.push(result.token());
        // a denied attempt in between takes no token
        assert_eq!(service.join(member("user0", "pw")), JoinResult::Denied);
    }
    let expected: Vec<u64> = (1..=20).collect();
    assert_eq!(tokens, expected);
    assert_eq!(service.member_count(), 20);
}

#[test]
fn sequence_numbers_rise_without_gaps() {
    let mut service = ChatService::new();
    assert_eq!(service.join(member("alice", "pw1")), JoinResult::Accepted { token: 1 });
    assert_eq!(service.join(member("bob", "pw2")), JoinResult::Accepted { token: 2 });
    let too_long = "x".repeat(51);
    let mut expected = 1;
    for i in 0..30u64 {
        let token = 1 + i % 2;
        assert_eq!(service.post(token, format!("message {}", i)), Ok(expected));
        expected += 1;
        // failures in between take no number
        assert_eq!(service.post(9, "nobody".to_string()), Err(ChatError::Unauthorized));
        assert_eq!(service.post(token, too_long.clone()), Err(ChatError::MessageTooLong));
    }
    assert_eq!(service.message_count(), 30);
    let log = service.read_log(2, 0).unwrap();
    for (i, entry) in log.iter().enumerate() {
        assert_eq!(entry.sequence_number, i as u64 + 1);
        assert_eq!(entry.text, format!("message {}", i));
        assert_eq!(entry.username, if i % 2 == 0 { "alice" } else { "bob" });
    }
}

#[test]
fn message_keeps_its_poster_after_later_joins() {
    let mut service = ChatService::new();
    assert_eq!(service.join(member("alice", "pw1")), JoinResult::Accepted { token: 1 });
    assert_eq!(service.post(1, "first".to_string()), Ok(1));
    assert_eq!(service.join(member("bob", "pw2")), JoinResult::Accepted { token: 2 });
    assert_eq!(service.join(member("carol", "pw3")), JoinResult::Accepted { token: 3 });
    assert_eq!(service.post(3, "second".to_string()), Ok(2));
    assert_eq!(service.join(member("alice", "again")), JoinResult::Denied);
    assert_eq!(
        service.read_log(2, 0),
        Ok(vec![message(1, "alice", "first"), message(2, "carol", "second")])
    );
}

#[test]
fn text_of_50_units_is_posted() {
    let mut service = ChatService::new();
    assert_eq!(service.join(member("alice", "pw1")), JoinResult::Accepted { token: 1 });
    let text = "a".repeat(50);
    assert_eq!(service.post(1, text.clone()), Ok(1));
    assert_eq!(service.read_log(1, 0), Ok(vec![message(1, "alice", &text)]));
}

#[test]
fn text_of_51_units_is_too_long() {
    let mut service = ChatService::new();
    assert_eq!(service.join(member("alice", "pw1")), JoinResult::Accepted { token: 1 });
    assert_eq!(service.post(1, "a".repeat(51)), Err(ChatError::MessageTooLong));
    assert_eq!(service.message_count(), 0);
    assert_eq!(service.read_log(1, 0), Ok(vec![]));
}

#[test]
fn empty_text_is_posted() {
    let mut service = ChatService::new();
    assert_eq!(service.join(member("alice", "pw1")), JoinResult::Accepted { token: 1 });
    assert_eq!(service.post(1, String::new()), Ok(1));
    assert_eq!(service.read_log(1, 0), Ok(vec![message(1, "alice", "")]));
}

#[test]
fn units_are_bytes_of_the_encoding() {
    let mut service = ChatService::new();
    assert_eq!(service.join(member("alice", "pw1")), JoinResult::Accepted { token: 1 });
    // 25 characters of two bytes each: 50 units
    let fifty = "\u{e9}".repeat(25);
    assert_eq!(fifty.len(), 50);
    assert_eq!(service.post(1, fifty), Ok(1));
    // 17 characters of three bytes each: 51 units, though far fewer than 50 characters
    let fifty_one = "\u{20ac}".repeat(17);
    assert_eq!(fifty_one.len(), 51);
    assert_eq!(service.post(1, fifty_one), Err(ChatError::MessageTooLong));
    // 12 characters of four bytes and two of one: 50 units
    let mut mixed = "\u{1f600}".repeat(12);
    mixed.push_str("ab");
    assert_eq!(mixed.len(), 50);
    assert_eq!(service.post(1, mixed), Ok(2));
    // 13 characters of four bytes: 52 units
    assert_eq!(service.post(1, "\u{1f600}".repeat(13)), Err(ChatError::MessageTooLong));
}

#[test]
fn length_is_checked_before_the_token() {
    let mut service = ChatService::new();
    assert_eq!(service.post(7, "a".repeat(51)), Err(ChatError::MessageTooLong));
    assert_eq!(service.post(7, "a".repeat(50)), Err(ChatError::Unauthorized));
}

#[test]
fn post_with_unknown_token_is_unauthorized() {
    let mut service = ChatService::new();
    assert_eq!(service.join(member("alice", "pw1")), JoinResult::Accepted { token: 1 });
    assert_eq!(service.post(0, "hi".to_string()), Err(ChatError::Unauthorized));
    assert_eq!(service.post(2, "hi".to_string()), Err(ChatError::Unauthorized));
    assert_eq!(service.post(u64::MAX, "hi".to_string()), Err(ChatError::Unauthorized));
    assert_eq!(service.message_count(), 0);
}

#[test]
fn read_with_unknown_token_is_unauthorized() {
    let mut service = ChatService::new();
    assert_eq!(service.join(member("alice", "pw1")), JoinResult::Accepted { token: 1 });
    assert_eq!(service.post(1, "hi".to_string()), Ok(1));
    assert_eq!(service.read_log(0, 0), Err(ChatError::Unauthorized));
    assert_eq!(service.read_log(2, 0), Err(ChatError::Unauthorized));
    assert_eq!(service.read_log(u64::MAX, 0), Err(ChatError::Unauthorized));
}

#[test]
fn token_of_a_denied_join_opens_nothing() {
    let mut service = ChatService::new();
    assert_eq!(service.join(member("alice", "pw1")), JoinResult::Accepted { token: 1 });
    let denied = service.join(member("alice", "pw2"));
    assert!(!denied.is_accepted());
    assert_eq!(denied.token(), 0);
    assert_eq!(service.post(denied.token(), "hi".to_string()), Err(ChatError::Unauthorized));
    assert_eq!(service.read_log(denied.token(), 0), Err(ChatError::Unauthorized));
}

#[test]
fn token_works_once_it_is_issued() {
    let mut service = ChatService::new();
    assert_eq!(service.post(1, "early".to_string()), Err(ChatError::Unauthorized));
    assert_eq!(service.join(member("alice", "pw1")), JoinResult::Accepted { token: 1 });
    assert_eq!(service.post(1, "now".to_string()), Ok(1));
}

#[test]
fn read_returns_everything_in_order() {
    let mut service = ChatService::new();
    assert_eq!(service.join(member("alice", "pw1")), JoinResult::Accepted { token: 1 });
    assert_eq!(service.read_log(1, 0), Ok(vec![]));
    assert_eq!(service.post(1, "one".to_string()), Ok(1));
    assert_eq!(service.post(1, "two".to_string()), Ok(2));
    assert_eq!(service.post(1, "three".to_string()), Ok(3));
    assert_eq!(
        service.read_log(1, 0),
        Ok(vec![
            message(1, "alice", "one"),
            message(2, "alice", "two"),
            message(3, "alice", "three")
        ])
    );
}

#[test]
fn read_does_not_trim_by_after() {
    let mut service = ChatService::new();
    assert_eq!(service.join(member("alice", "pw1")), JoinResult::Accepted { token: 1 });
    assert_eq!(service.post(1, "one".to_string()), Ok(1));
    assert_eq!(service.post(1, "two".to_string()), Ok(2));
    let whole = vec![message(1, "alice", "one"), message(2, "alice", "two")];
    assert_eq!(service.read_log(1, 0), Ok(whole.clone()));
    assert_eq!(service.read_log(1, 1), Ok(whole.clone()));
    assert_eq!(service.read_log(1, 2), Ok(whole.clone()));
    assert_eq!(service.read_log(1, u64::MAX), Ok(whole));
}

#[test]
fn read_is_a_snapshot() {
    let mut service = ChatService::new();
    assert_eq!(service.join(member("alice", "pw1")), JoinResult::Accepted { token: 1 });
    assert_eq!(service.post(1, "one".to_string()), Ok(1));
    let before = service.read_log(1, 0).unwrap();
    assert_eq!(service.post(1, "two".to_string()), Ok(2));
    assert_eq!(before, vec![message(1, "alice", "one")]);
    let again = service.read_log(1, 0).unwrap();
    assert_eq!(again.len(), 2);
    assert_eq!(service.read_log(1, 0).unwrap(), again);
}

#[test]
fn any_member_reads_what_others_posted() {
    let mut service = ChatService::new();
    assert_eq!(service.join(member("alice", "pw1")), JoinResult::Accepted { token: 1 });
    assert_eq!(service.post(1, "hello".to_string()), Ok(1));
    assert_eq!(service.join(member("bob", "pw2")), JoinResult::Accepted { token: 2 });
    assert_eq!(service.read_log(2, 0), Ok(vec![message(1, "alice", "hello")]));
}

#[test]
fn repeated_post_makes_a_second_message() {
    let mut service = ChatService::new();
    assert_eq!(service.join(member("alice", "pw1")), JoinResult::Accepted { token: 1 });
    assert_eq!(service.post(1, "same".to_string()), Ok(1));
    assert_eq!(service.post(1, "same".to_string()), Ok(2));
    assert_eq!(
        service.read_log(1, 0),
        Ok(vec![message(1, "alice", "same"), message(2, "alice", "same")])
    );
}
