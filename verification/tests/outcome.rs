use chat_core::outcome::{ChatError, JoinResult};

#[test]
fn accepted_carries_its_token() {
    let result = JoinResult::Accepted { token: 7 };
    assert!(result.is_accepted());
    assert_eq!(result.token(), 7);
}

#[test]
fn denied_has_token_zero() {
    let result = JoinResult::Denied;
    assert!(!result.is_accepted());
    assert_eq!(result.token(), 0);
}

#[test]
fn errors_are_told_apart() {
    assert_ne!(ChatError::Unauthorized, ChatError::MessageTooLong);
    assert_eq!(ChatError::Unauthorized, ChatError::Unauthorized);
}
