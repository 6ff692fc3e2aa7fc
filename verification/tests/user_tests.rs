use social_net::common::UserConnectionType;
use social_net::user::{ConnectedUser, User, UserActor};
use social_net::user::UserQueryMatcher;

fn create_test_user() -> User {
    User::new("test-user-1".to_string(), 1000)
}

fn create_test_connected_user(user_id: &str, connection_type: UserConnectionType) -> ConnectedUser {
    ConnectedUser::new(user_id.to_string(), connection_type, 1000)
}

#[test]
fn test_user_new() {
    let user = User::new("test-user".to_string(), 1000);
    assert_eq!(user.user_id, "test-user");
    assert!(user.name.is_none());
    assert!(user.email.is_none());
    assert!(user.connected_users.is_empty());
    assert_eq!(user.created_at, user.updated_at);
}

#[test]
fn test_set_name_some() {
    let mut user = create_test_user();
    let initial_updated_at = user.updated_at;

    user.set_name(Some("John Doe".to_string()), 2000);

    assert_eq!(user.name, Some("John Doe".to_string()));
    assert!(user.updated_at > initial_updated_at);
}

#[test]
fn test_set_name_none() {
    let mut user = create_test_user();
    user.set_name(Some("John Doe".to_string()), 2000);
    let initial_updated_at = user.updated_at;

    user.set_name(None, 3000);

    assert!(user.name.is_none());
    assert!(user.updated_at > initial_updated_at);
}

#[test]
fn test_set_email_valid() {
    let mut user = create_test_user();
    let initial_updated_at = user.updated_at;

    let result = user.set_email(Some("john.doe@example.com".to_string()), 2000);

    assert!(result.is_ok());
    assert_eq!(user.email, Some("john.doe@example.com".to_string()));
    assert!(user.updated_at > initial_updated_at);
}

#[test]
fn test_set_email_invalid() {
    let mut user = create_test_user();
    let initial_updated_at = user.updated_at;
    let original_email = user.email.clone();

    let result = user.set_email(Some("invalid-email".to_string()), 2000);

    assert!(result.is_err());
    assert!(result.unwrap_err().contains("Invalid email"));
    assert_eq!(user.email, original_email);
    assert_eq!(user.updated_at, initial_updated_at); // Should not update on error
}

#[test]
fn test_set_email_none() {
    let mut user = create_test_user();
    user.set_email(Some("john.doe@example.com".to_string()), 2000).unwrap();
    let initial_updated_at = user.updated_at;

    let result = user.set_email(None, 3000);

    assert!(result.is_ok());
    assert!(user.email.is_none());
    assert!(user.updated_at > initial_updated_at);
}

#[test]
fn test_connect_user_success() {
    let mut user = create_test_user();
    let initial_updated_at = user.updated_at;

    let result = user.connect_user("user2".to_string(), UserConnectionType::Friend, 2000);

    assert!(result);
    assert_eq!(user.connected_users.len(), 1);

    let connected_user = user.connected_users.get("user2").unwrap();
    assert_eq!(connected_user.user_id, "user2");
    assert!(connected_user.has_connection_type(&UserConnectionType::Friend));
    assert!(user.updated_at > initial_updated_at);
}

#[test]
fn test_connect_user_self() {
    let mut user = create_test_user();
    let initial_updated_at = user.updated_at;

    let result = user.connect_user("test-user-1".to_string(), UserConnectionType::Friend, 2000);

    assert!(!result);
    assert!(user.connected_users.is_empty());
    assert_eq!(user.updated_at, initial_updated_at);
}

#[test]
fn test_connect_user_already_connected() {
    let mut user = create_test_user();
    user.connect_user("user2".to_string(), UserConnectionType::Friend, 2000);
    let initial_updated_at = user.updated_at;

    let result = user.connect_user("user2".to_string(), UserConnectionType::Friend, 3000);

    assert!(!result);
    assert_eq!(user.connected_users.len(), 1);
    assert_eq!(user.updated_at, initial_updated_at);
}

#[test]
fn test_connect_user_different_connection_type() {
    let mut user = create_test_user();
    user.connect_user("user2".to_string(), UserConnectionType::Friend, 2000);
    let initial_updated_at = user.updated_at;

    let result = user.connect_user("user2".to_string(), UserConnectionType::Follower, 3000);

    assert!(result);
    assert_eq!(user.connected_users.len(), 1);

    let connected_user = user.connected_users.get("user2").unwrap();
    assert!(connected_user.has_connection_type(&UserConnectionType::Friend));
    assert!(connected_user.has_connection_type(&UserConnectionType::Follower));
    assert!(user.updated_at > initial_updated_at);
}

#[test]
fn test_connect_user_multiple_users() {
    let mut user = create_test_user();

    let result1 = user.connect_user("user2".to_string(), UserConnectionType::Friend, 2000);
    let result2 = user.connect_user("user3".to_string(), UserConnectionType::Follower, 3000);
    let result3 = user.connect_user("user4".to_string(), UserConnectionType::Friend, 4000);

    assert!(result1);
    assert!(result2);
    assert!(result3);
    assert_eq!(user.connected_users.len(), 3);

    assert!(user.connected_users.get("user2").unwrap().has_connection_type(
        &UserConnectionType::Friend
    ));
    assert!(user.connected_users.get("user3").unwrap().has_connection_type(
        &UserConnectionType::Follower
    ));
    assert!(user.connected_users.get("user4").unwrap().has_connection_type(
        &UserConnectionType::Friend
    ));
}

#[test]
fn test_disconnect_user_success() {
    let mut user = create_test_user();
    user.connect_user("user2".to_string(), UserConnectionType::Friend, 2000);
    let initial_updated_at = user.updated_at;

    let result = user.disconnect_user("user2".to_string(), UserConnectionType::Friend, 3000);

    assert!(result);
    assert!(user.connected_users.is_empty());
    assert!(user.updated_at > initial_updated_at);
}

#[test]
fn test_disconnect_user_self() {
    let mut user = create_test_user();
    let initial_updated_at = user.updated_at;

    let result = user.disconnect_user("test-user-1".to_string(), UserConnectionType::Friend, 2000);

    assert!(!result);
    assert!(user.connected_users.is_empty());
    assert_eq!(user.updated_at, initial_updated_at);
}

#[test]
fn test_disconnect_user_not_connected() {
    let mut user = create_test_user();
    let initial_updated_at = user.updated_at;

    let result = user.disconnect_user("user2".to_string(), UserConnectionType::Friend, 2000);

    assert!(!result);
    assert!(user.connected_users.is_empty());
    assert_eq!(user.updated_at, initial_updated_at);
}

#[test]
fn test_disconnect_user_wrong_connection_type() {
    let mut user = create_test_user();
    user.connect_user("user2".to_string(), UserConnectionType::Friend, 2000);
    let initial_updated_at = user.updated_at;

    let result = user.disconnect_user("user2".to_string(), UserConnectionType::Follower, 3000);

    assert!(!result);
    assert_eq!(user.connected_users.len(), 1);
    assert_eq!(user.updated_at, initial_updated_at);
}

#[test]
fn test_disconnect_user_multiple_connection_types() {
    let mut user = create_test_user();
    user.connect_user("user2".to_string(), UserConnectionType::Friend, 2000);
    user.connect_user("user2".to_string(), UserConnectionType::Follower, 3000);
    assert_eq!(user.connected_users.len(), 1);

    let connected_user = user.connected_users.get("user2").unwrap();
    assert_eq!(connected_user.connection_types.len(), 2);

    let initial_updated_at = user.updated_at;

    // Remove only one connection type
    let result = user.disconnect_user("user2".to_string(), UserConnectionType::Friend, 4000);

    assert!(result);
    assert_eq!(user.connected_users.len(), 1);

    let connected_user = user.connected_users.get("user2").unwrap();
    assert!(!connected_user.has_connection_type(&UserConnectionType::Friend));
    assert!(connected_user.has_connection_type(&UserConnectionType::Follower));
    assert!(user.updated_at > initial_updated_at);
}

#[test]
fn test_disconnect_user_remove_last_connection() {
    let mut user = create_test_user();
    user.connect_user("user2".to_string(), UserConnectionType::Friend, 2000);
    user.connect_user("user2".to_string(), UserConnectionType::Follower, 3000);

    // Remove first connection type
    assert!(user.disconnect_user("user2".to_string(), UserConnectionType::Friend, 4000));
    assert_eq!(user.connected_users.len(), 1);

    // Remove second connection type (should remove user completely)
    let initial_updated_at = user.updated_at;
    let result = user.disconnect_user("user2".to_string(), UserConnectionType::Follower, 5000);

    assert!(result);
    assert!(user.connected_users.is_empty());
    assert!(user.updated_at > initial_updated_at);
}

#[test]
fn test_connect_disconnect_cycle() {
    let mut user = create_test_user();

    // Connect user
    assert!(user.connect_user("user2".to_string(), UserConnectionType::Friend, 2000));
    assert_eq!(user.connected_users.len(), 1);

    // Disconnect user
    assert!(user.disconnect_user("user2".to_string(), UserConnectionType::Friend, 3000));
    assert!(user.connected_users.is_empty());

    // Reconnect user
    assert!(user.connect_user("user2".to_string(), UserConnectionType::Follower, 4000));
    assert_eq!(user.connected_users.len(), 1);

    let connected_user = user.connected_users.get("user2").unwrap();
    assert!(connected_user.has_connection_type(&UserConnectionType::Follower));
    assert!(!connected_user.has_connection_type(&UserConnectionType::Friend));
}

#[test]
fn test_connected_user_new() {
    let connected_user = create_test_connected_user("user2", UserConnectionType::Friend);

    assert_eq!(connected_user.user_id, "user2");
    assert!(connected_user.has_connection_type(&UserConnectionType::Friend));
    assert_eq!(connected_user.connection_types.len(), 1);
    assert_eq!(connected_user.created_at, connected_user.updated_at);
}

#[test]
fn test_connected_user_add_connection_type() {
    let mut connected_user = create_test_connected_user("user2", UserConnectionType::Friend);
    let initial_updated_at = connected_user.updated_at;

    connected_user.add_connection_type(UserConnectionType::Follower, 2000);

    assert!(connected_user.has_connection_type(&UserConnectionType::Friend));
    assert!(connected_user.has_connection_type(&UserConnectionType::Follower));
    assert_eq!(connected_user.connection_types.len(), 2);
    assert!(connected_user.updated_at > initial_updated_at);
}

#[test]
fn test_connected_user_add_duplicate_connection_type() {
    let mut connected_user = create_test_connected_user("user2", UserConnectionType::Friend);
    let initial_updated_at = connected_user.updated_at;

    connected_user.add_connection_type(UserConnectionType::Friend, 2000);

    assert!(connected_user.has_connection_type(&UserConnectionType::Friend));
    assert_eq!(connected_user.connection_types.len(), 1);
    assert_eq!(connected_user.updated_at, initial_updated_at);
}

#[test]
fn test_connected_user_remove_connection_type() {
    let mut connected_user = create_test_connected_user("user2", UserConnectionType::Friend);
    connected_user.add_connection_type(UserConnectionType::Follower, 2000);
    assert_eq!(connected_user.connection_types.len(), 2);

    let initial_updated_at = connected_user.updated_at;

    connected_user.remove_connection_type(&UserConnectionType::Friend, 3000);

    assert!(!connected_user.has_connection_type(&UserConnectionType::Friend));
    assert!(connected_user.has_connection_type(&UserConnectionType::Follower));
    assert_eq!(connected_user.connection_types.len(), 1);
    assert!(connected_user.updated_at > initial_updated_at);
}

#[test]
fn test_connected_user_remove_nonexistent_connection_type() {
    let mut connected_user = create_test_connected_user("user2", UserConnectionType::Friend);
    let initial_updated_at = connected_user.updated_at;

    connected_user.remove_connection_type(&UserConnectionType::Follower, 2000);

    assert!(connected_user.has_connection_type(&UserConnectionType::Friend));
    assert_eq!(connected_user.connection_types.len(), 1);
    assert_eq!(connected_user.updated_at, initial_updated_at);
}

#[test]
fn test_connected_user_has_connection_type() {
    let mut connected_user = create_test_connected_user("user2", UserConnectionType::Friend);

    assert!(connected_user.has_connection_type(&UserConnectionType::Friend));
    assert!(!connected_user.has_connection_type(&UserConnectionType::Follower));

    connected_user.add_connection_type(UserConnectionType::Follower, 2000);

    assert!(connected_user.has_connection_type(&UserConnectionType::Friend));
    assert!(connected_user.has_connection_type(&UserConnectionType::Follower));
}

#[test]
fn test_all_connection_types() {
    let mut user = create_test_user();

    let connection_types = vec![UserConnectionType::Friend, UserConnectionType::Follower];

    for (i, connection_type) in connection_types.iter().enumerate() {
        let user_id = format!("user{}", i + 2);
        assert!(user.connect_user(user_id, *connection_type, 2000 + i as u64));
    }

    assert_eq!(user.connected_users.len(), 2);
    assert!(user.connected_users.get("user2").unwrap().has_connection_type(
        &UserConnectionType::Friend
    ));
    assert!(user.connected_users.get("user3").unwrap().has_connection_type(
        &UserConnectionType::Follower
    ));
}

#[test]
fn test_complex_connection_scenario() {
    let mut user = create_test_user();

    // Create complex connections
    assert!(user.connect_user("user2".to_string(), UserConnectionType::Friend, 2000));
    assert!(user.connect_user("user2".to_string(), UserConnectionType::Follower, 3000));
    assert!(user.connect_user("user3".to_string(), UserConnectionType::Friend, 4000));
    assert!(user.connect_user("user4".to_string(), UserConnectionType::Follower, 5000));

    assert_eq!(user.connected_users.len(), 3);

    let user2_connections = user.connected_users.get("user2").unwrap();
    assert_eq!(user2_connections.connection_types.len(), 2);

    let user3_connections = user.connected_users.get("user3").unwrap();
    assert_eq!(user3_connections.connection_types.len(), 1);

    let user4_connections = user.connected_users.get("user4").unwrap();
    assert_eq!(user4_connections.connection_types.len(), 1);

    // Remove some connections
    assert!(user.disconnect_user("user2".to_string(), UserConnectionType::Friend, 6000));
    assert_eq!(user.connected_users.len(), 3);

    let user2_connections = user.connected_users.get("user2").unwrap();
    assert_eq!(user2_connections.connection_types.len(), 1);
    assert!(!user2_connections.has_connection_type(&UserConnectionType::Friend));
    assert!(user2_connections.has_connection_type(&UserConnectionType::Follower));

    // Remove user completely
    assert!(user.disconnect_user("user3".to_string(), UserConnectionType::Friend, 7000));
    assert_eq!(user.connected_users.len(), 2);
    assert!(!user.connected_users.contains_key("user3"));
}

#[test]
fn test_user_operations_integration() {
    let mut user = create_test_user();

    // Set user properties
    user.set_name(Some("John Doe".to_string()), 2000);
    user.set_email(Some("john.doe@example.com".to_string()), 3000).unwrap();

    // Create connections
    assert!(user.connect_user("friend1".to_string(), UserConnectionType::Friend, 4000));
    assert!(user.connect_user("follower1".to_string(), UserConnectionType::Follower, 5000));
    assert!(user.connect_user("friend2".to_string(), UserConnectionType::Friend, 6000));

    assert_eq!(user.name, Some("John Doe".to_string()));
    assert_eq!(user.email, Some("john.doe@example.com".to_string()));
    assert_eq!(user.connected_users.len(), 3);

    // Modify connections
    assert!(user.connect_user("friend1".to_string(), UserConnectionType::Follower, 7000));
    assert!(user.disconnect_user("friend2".to_string(), UserConnectionType::Friend, 8000));

    assert_eq!(user.connected_users.len(), 2); // friend2 should be completely removed

    let friend1_connections = user.connected_users.get("friend1").unwrap();
    assert!(friend1_connections.has_connection_type(&UserConnectionType::Friend));
    assert!(friend1_connections.has_connection_type(&UserConnectionType::Follower));

    // Update user properties again
    user.set_name(Some("Jane Doe".to_string()), 9000);
    let _ = user.set_email(None, 10000);

    assert_eq!(user.name, Some("Jane Doe".to_string()));
    assert!(user.email.is_none());
    assert_eq!(user.connected_users.len(), 2);
}

#[test]
fn test_mirrored_edge_delivery() {
    // a successful Follower connect instructs the peer to record Following
    let mut a = UserActor::new("alice".to_string());
    let mut b = UserActor::new("bob".to_string());

    let (res, trigger) = a.connect_user("bob".to_string(), UserConnectionType::Follower, 2000);
    assert!(res.is_ok());
    let trigger = trigger.expect("a change must emit a mirror trigger");
    assert_eq!(trigger.target_user_id, "bob");
    assert_eq!(trigger.source_user_id, "alice");
    assert_eq!(trigger.connection_type, UserConnectionType::Following);

    // deliver the mirror trigger at the peer's own actor
    let (res_b, _trigger_b) =
        b.connect_user(trigger.source_user_id.clone(), trigger.connection_type, 3000);
    assert!(res_b.is_ok());
    let b_state = b.get_user().as_ref().unwrap();
    assert!(b_state.connected_users.get("alice").unwrap().has_connection_type(
        &UserConnectionType::Following
    ));

    // Friend mirrors to Friend
    let (_, trigger2) = a.connect_user("bob".to_string(), UserConnectionType::Friend, 4000);
    assert_eq!(trigger2.unwrap().connection_type, UserConnectionType::Friend);
}

#[test]
fn test_user_query_matcher() {

    let mut user = User::new("u001".to_string(), 1000);
    user.set_name(Some("User".to_string()), 2000);
    user.set_email(Some("u001@test.com".to_string()), 3000).unwrap();

    // case-insensitive name filter with a quoted value
    assert!(UserQueryMatcher::new("name:\"User\"").matches(user_copy(&user)));
    assert!(UserQueryMatcher::new("name:user").matches(user_copy(&user)));
    // a bare term matches id, name or email by substring
    assert!(UserQueryMatcher::new("u00").matches(user_copy(&user)));
    assert!(UserQueryMatcher::new("USER").matches(user_copy(&user)));
    assert!(!UserQueryMatcher::new("nobody").matches(user_copy(&user)));
    // email is matched exactly, id exactly via user-id
    assert!(UserQueryMatcher::new("email:u001@test.com").matches(user_copy(&user)));
    assert!(!UserQueryMatcher::new("email:U001@test.com").matches(user_copy(&user)));
    assert!(UserQueryMatcher::new("user-id:u001").matches(user_copy(&user)));
    // unknown fields fail closed; * matches anything
    assert!(!UserQueryMatcher::new("nick:u001").matches(user_copy(&user)));
    assert!(UserQueryMatcher::new("name:*").matches(user_copy(&user)));
}

fn user_copy(u: &User) -> User {
    let mut c = User::new(u.user_id.clone(), u.created_at);
    c.set_name(u.name.clone(), u.updated_at);
    c.set_email(u.email.clone(), u.updated_at).unwrap();
    c
}
