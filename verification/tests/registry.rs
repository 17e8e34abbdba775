use chat_core::member::Member;
use chat_core::registry::MembershipRegistry;

fn candidate(username: &str, password: &str) -> Member {
    Member::new(username.to_string(), password.to_string())
}

#[test]
fn new_registry_has_nobody() {
    let registry = MembershipRegistry::new();
    assert_eq!(registry.len(), 0);
    assert!(!registry.has_username(&"alice".to_string()));
    assert_eq!(registry.resolve_username(1), None);
}

#[test]
fn default_registry_has_nobody() {
    let registry = MembershipRegistry::default();
    assert_eq!(registry.len(), 0);
    assert_eq!(registry.resolve_username(0), None);
}

#[test]
fn register_issues_count_plus_one() {
    let mut registry = MembershipRegistry::new();
    assert_eq!(registry.register(candidate("alice", "pw1")), 1);
    assert_eq!(registry.len(), 1);
    assert_eq!(registry.register(candidate("bob", "pw2")), 2);
    assert_eq!(registry.register(candidate("carol", "pw3")), 3);
    assert_eq!(registry.len(), 3);
}

#[test]
fn resolve_gives_the_username_of_the_token() {
    let mut registry = MembershipRegistry::new();
    let alice = registry.register(candidate("alice", "pw1"));
    let bob = registry.register(candidate("bob", "pw2"));
    assert_eq!(registry.resolve_username(alice), Some("alice".to_string()));
    assert_eq!(registry.resolve_username(bob), Some("bob".to_string()));
    assert_eq!(registry.resolve_username(0), None);
    assert_eq!(registry.resolve_username(3), None);
    assert_eq!(registry.resolve_username(u64::MAX), None);
}

#[test]
fn earlier_tokens_keep_their_member() {
    let mut registry = MembershipRegistry::new();
    let alice = registry.register(candidate("alice", "pw1"));
    for i in 0..10 {
        let name = format!("member{}", i);
        assert!(!registry.has_username(&name));
        let token = registry.register(candidate(&name, "pw"));
        assert_eq!(registry.resolve_username(token), Some(name));
        assert_eq!(registry.resolve_username(alice), Some("alice".to_string()));
    }
}

#[test]
fn has_username_is_exact_and_case_sensitive() {
    let mut registry = MembershipRegistry::new();
    registry.register(candidate("alice", "pw1"));
    registry.register(candidate("bob", "pw2"));
    assert!(registry.has_username(&"alice".to_string()));
    assert!(registry.has_username(&"bob".to_string()));
    assert!(!registry.has_username(&"Alice".to_string()));
    assert!(!registry.has_username(&"alic".to_string()));
    assert!(!registry.has_username(&"alice ".to_string()));
    assert!(!registry.has_username(&"".to_string()));
    // a password is no username
    assert!(!registry.has_username(&"pw1".to_string()));
}

#[test]
fn member_is_built_from_its_fields() {
    let member = candidate("alice", "pw1");
    assert_eq!(member.username, "alice");
    assert_eq!(member.password, "pw1");
    assert_eq!(member, Member { username: "alice".to_string(), password: "pw1".to_string() });
}
