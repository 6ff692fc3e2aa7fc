use social_net::chat::{Chat, ChatActor, Message};
use social_net::common::LikeType;

fn create_test_chat() -> Chat {
    let mut chat = Chat::new("test-chat-1".to_string(), 1000);
    chat.created_by = "user1".to_string();
    chat.participants.insert("user1".to_string());
    chat.participants.insert("user2".to_string());
    chat
}

fn fresh_id() -> String {
    uuid::Uuid::new_v4().to_string()
}

#[test]
fn test_chat_new() {
    let chat = Chat::new("test-chat".to_string(), 1000);
    assert_eq!(chat.chat_id, "test-chat");
    assert_eq!(chat.created_by, "");
    assert!(chat.participants.is_empty());
    assert!(chat.messages.is_empty());
    assert_eq!(chat.created_at, chat.updated_at);
}

#[test]
fn test_add_message() {
    let mut chat = create_test_chat();
    let initial_updated_at = chat.updated_at;

    // Add first message
    let message_id1 = chat.add_message("user1".to_string(), "Hello world".to_string(), fresh_id(), 2000);

    assert_eq!(chat.messages.len(), 1);
    assert_eq!(chat.messages[0].message_id, message_id1);
    assert_eq!(chat.messages[0].content, "Hello world");
    assert_eq!(chat.messages[0].created_by, "user1");
    assert!(chat.messages[0].likes.is_empty());
    assert!(chat.updated_at > initial_updated_at);

    // Add second message
    let message_id2 = chat.add_message("user2".to_string(), "Hi there".to_string(), fresh_id(), 3000);

    assert_eq!(chat.messages.len(), 2);
    assert_eq!(chat.messages[1].message_id, message_id2);
    assert_eq!(chat.messages[1].content, "Hi there");
    assert_eq!(chat.messages[1].created_by, "user2");
    assert_ne!(message_id1, message_id2);
}

#[test]
fn test_remove_message_success() {
    let mut chat = create_test_chat();
    let message_id = chat.add_message("user1".to_string(), "Test message".to_string(), fresh_id(), 2000);
    let initial_updated_at = chat.updated_at;

    // Remove existing message
    let result = chat.remove_message(message_id.clone(), 3000);

    assert!(result);
    assert_eq!(chat.messages.len(), 0);
    assert!(chat.updated_at > initial_updated_at);
}

#[test]
fn test_remove_message_not_found() {
    let mut chat = create_test_chat();
    let initial_updated_at = chat.updated_at;

    // Try to remove non-existent message
    let result = chat.remove_message("non-existent-id".to_string(), 2000);

    assert!(!result);
    assert_eq!(chat.messages.len(), 0);
    assert_eq!(chat.updated_at, initial_updated_at);
}

#[test]
fn test_remove_message_from_multiple() {
    let mut chat = create_test_chat();
    let message_id1 = chat.add_message("user1".to_string(), "Message 1".to_string(), fresh_id(), 2000);
    let message_id2 = chat.add_message("user2".to_string(), "Message 2".to_string(), fresh_id(), 3000);
    let message_id3 = chat.add_message("user1".to_string(), "Message 3".to_string(), fresh_id(), 4000);

    assert_eq!(chat.messages.len(), 3);

    // Remove middle message
    let result = chat.remove_message(message_id2.clone(), 5000);

    assert!(result);
    assert_eq!(chat.messages.len(), 2);
    assert_eq!(chat.messages[0].message_id, message_id1);
    assert_eq!(chat.messages[1].message_id, message_id3);
}

#[test]
fn test_set_message_like_success() {
    let mut chat = create_test_chat();
    let message_id = chat.add_message("user1".to_string(), "Test message".to_string(), fresh_id(), 2000);
    let initial_updated_at = chat.updated_at;

    // Add a like
    let result = chat.set_message_like(message_id.clone(), "user2".to_string(), LikeType::Like, 3000);

    assert!(result);
    assert_eq!(chat.messages[0].likes.len(), 1);
    assert_eq!(chat.messages[0].likes.get("user2"), Some(&LikeType::Like));
    assert!(chat.messages[0].updated_at > initial_updated_at);
    assert!(chat.updated_at > initial_updated_at);
}

#[test]
fn test_set_message_like_not_found() {
    let mut chat = create_test_chat();
    let initial_updated_at = chat.updated_at;

    // Try to like non-existent message
    let result = chat.set_message_like(
        "non-existent-id".to_string(),
        "user2".to_string(),
        LikeType::Like,
        2000,
    );

    assert!(!result);
    assert_eq!(chat.messages.len(), 0);
    assert_eq!(chat.updated_at, initial_updated_at);
}

#[test]
fn test_set_multiple_likes() {
    let mut chat = create_test_chat();
    let message_id = chat.add_message("user1".to_string(), "Test message".to_string(), fresh_id(), 2000);

    // Add multiple likes from different users
    let result1 = chat.set_message_like(message_id.clone(), "user2".to_string(), LikeType::Like, 3000);
    let result2 = chat.set_message_like(message_id.clone(), "user3".to_string(), LikeType::Love, 4000);

    assert!(result1);
    assert!(result2);
    assert_eq!(chat.messages[0].likes.len(), 2);
    assert_eq!(chat.messages[0].likes.get("user2"), Some(&LikeType::Like));
    assert_eq!(chat.messages[0].likes.get("user3"), Some(&LikeType::Love));
}

#[test]
fn test_override_like() {
    let mut chat = create_test_chat();
    let message_id = chat.add_message("user1".to_string(), "Test message".to_string(), fresh_id(), 2000);

    // Add initial like
    let result1 = chat.set_message_like(message_id.clone(), "user2".to_string(), LikeType::Like, 3000);

    // Override with different like type
    let result2 = chat.set_message_like(message_id.clone(), "user2".to_string(), LikeType::Love, 4000);

    assert!(result1);
    assert!(result2);
    assert_eq!(chat.messages[0].likes.len(), 1);
    assert_eq!(chat.messages[0].likes.get("user2"), Some(&LikeType::Love));
}

#[test]
fn test_remove_message_like_success() {
    let mut chat = create_test_chat();
    let message_id = chat.add_message("user1".to_string(), "Test message".to_string(), fresh_id(), 2000);

    // Add a like first
    chat.set_message_like(message_id.clone(), "user2".to_string(), LikeType::Like, 3000);
    assert_eq!(chat.messages[0].likes.len(), 1);

    let initial_updated_at = chat.updated_at;

    // Remove the like
    let result = chat.remove_message_like(message_id.clone(), "user2".to_string(), 4000);

    assert!(result);
    assert_eq!(chat.messages[0].likes.len(), 0);
    assert!(chat.messages[0].updated_at > initial_updated_at);
    assert!(chat.updated_at > initial_updated_at);
}

#[test]
fn test_remove_message_like_not_found() {
    let mut chat = create_test_chat();
    let message_id = chat.add_message("user1".to_string(), "Test message".to_string(), fresh_id(), 2000);
    let initial_updated_at = chat.updated_at;

    // Try to remove like from non-existent message
    let result1 = chat.remove_message_like("non-existent-id".to_string(), "user2".to_string(), 3000);

    // Try to remove non-existent like from existing message
    let result2 = chat.remove_message_like(message_id.clone(), "user2".to_string(), 4000);

    assert!(!result1);
    assert!(!result2);
    assert_eq!(chat.messages[0].likes.len(), 0);
    assert_eq!(chat.updated_at, initial_updated_at);
}

#[test]
fn test_message_new() {
    let message = Message::new(fresh_id(), "user1".to_string(), "Test content".to_string(), 1000);

    assert!(!message.message_id.is_empty());
    assert_eq!(message.content, "Test content");
    assert_eq!(message.created_by, "user1");
    assert!(message.likes.is_empty());
    assert_eq!(message.created_at, message.updated_at);

    // Test that message_id is a valid UUID
    uuid::Uuid::parse_str(&message.message_id).unwrap();
}

#[test]
fn test_like_operations_integration() {
    let mut chat = create_test_chat();
    let message_id = chat.add_message("user1".to_string(), "Test message".to_string(), fresh_id(), 2000);

    // Add multiple likes
    assert!(chat.set_message_like(message_id.clone(), "user2".to_string(), LikeType::Like, 3000));
    assert!(chat.set_message_like(message_id.clone(), "user3".to_string(), LikeType::Love, 4000));
    assert!(chat.set_message_like(message_id.clone(), "user4".to_string(), LikeType::Insightful, 5000));

    assert_eq!(chat.messages[0].likes.len(), 3);

    // Remove one like
    assert!(chat.remove_message_like(message_id.clone(), "user3".to_string(), 6000));

    assert_eq!(chat.messages[0].likes.len(), 2);
    assert_eq!(chat.messages[0].likes.get("user2"), Some(&LikeType::Like));
    assert_eq!(chat.messages[0].likes.get("user4"), Some(&LikeType::Insightful));
    assert!(chat.messages[0].likes.get("user3").is_none());

    // Override remaining like
    assert!(chat.set_message_like(message_id.clone(), "user2".to_string(), LikeType::Dislike, 7000));

    assert_eq!(chat.messages[0].likes.len(), 2);
    assert_eq!(chat.messages[0].likes.get("user2"), Some(&LikeType::Dislike));
    assert_eq!(chat.messages[0].likes.get("user4"), Some(&LikeType::Insightful));
}

#[test]
fn test_all_like_types() {
    let mut chat = create_test_chat();
    let message_id = chat.add_message("user1".to_string(), "Test message".to_string(), fresh_id(), 2000);

    let like_types = vec![LikeType::Like, LikeType::Love, LikeType::Insightful, LikeType::Dislike];

    for (i, like_type) in like_types.iter().enumerate() {
        let user_id = format!("user{}", i + 2);
        assert!(chat.set_message_like(message_id.clone(), user_id, *like_type, 3000 + i as u64));
    }

    assert_eq!(chat.messages[0].likes.len(), 4);
    assert_eq!(chat.messages[0].likes.get("user2"), Some(&LikeType::Like));
    assert_eq!(chat.messages[0].likes.get("user3"), Some(&LikeType::Love));
    assert_eq!(chat.messages[0].likes.get("user4"), Some(&LikeType::Insightful));
    assert_eq!(chat.messages[0].likes.get("user5"), Some(&LikeType::Dislike));
}

#[test]
fn test_init_chat_creator_and_one_participant() {
    // creator + 1 participant: the chat exists with size 2
    let mut actor = ChatActor::new("chat-1".to_string());
    let fanout = actor
        .init_chat(vec!["user2".to_string()], "user1".to_string(), 1000)
        .unwrap();

    let chat = actor.get_chat().as_ref().unwrap();
    assert_eq!(chat.participants.len(), 2);
    assert!(chat.participants.contains("user1"));
    assert!(chat.participants.contains("user2"));
    assert_eq!(chat.created_by, "user1");

    // the non-creator participant is told about the new chat, everyone
    // about its update
    assert_eq!(fanout.added.len(), 1);
    assert_eq!(fanout.added[0].target_user_id, "user2");
    assert_eq!(fanout.updated.len(), 2);

    // re-initialization is refused
    assert_eq!(
        actor
            .init_chat(vec!["user3".to_string()], "user1".to_string(), 2000)
            .unwrap_err(),
        "Chat already exists"
    );
}

#[test]
fn test_init_chat_creator_alone_fails() {
    let mut actor = ChatActor::new("chat-1".to_string());
    let err = actor.init_chat(Vec::new(), "user1".to_string(), 1000).unwrap_err();
    assert_eq!(err, "Chat must have at least 2 participants");

    // listing only the creator is still being alone
    let err2 = actor
        .init_chat(vec!["user1".to_string()], "user1".to_string(), 2000)
        .unwrap_err();
    assert_eq!(err2, "Chat must have at least 2 participants");
    assert!(actor.get_chat().is_none());
}

#[test]
fn test_add_participants_fanout() {
    let mut actor = ChatActor::new("chat-1".to_string());
    actor.init_chat(vec!["user2".to_string()], "user1".to_string(), 1000).unwrap();

    // nothing new is an error
    assert_eq!(
        actor
            .add_participants(vec!["user1".to_string(), "user2".to_string()], 2000)
            .unwrap_err(),
        "No new participants"
    );

    let fanout = actor
        .add_participants(vec!["user2".to_string(), "user3".to_string()], 3000)
        .unwrap();
    let chat = actor.get_chat().as_ref().unwrap();
    assert_eq!(chat.participants.len(), 3);
    assert!(chat.participants.contains("user3"));
    // the new participant hears "added", the prior ones hear "updated"
    assert_eq!(fanout.added.len(), 1);
    assert_eq!(fanout.added[0].target_user_id, "user3");
    assert_eq!(fanout.updated.len(), 2);
}

#[test]
fn test_chat_actor_message_flow() {
    let mut actor = ChatActor::new("chat-1".to_string());
    assert_eq!(
        actor.add_message("user1".to_string(), "hi".to_string(), 500).unwrap_err(),
        "Chat not exists"
    );
    actor.init_chat(vec!["user2".to_string()], "user1".to_string(), 1000).unwrap();

    let (message_id, fan) = actor.add_message("user1".to_string(), "hi".to_string(), 2000).unwrap();
    uuid::Uuid::parse_str(&message_id).unwrap();
    assert_eq!(fan.len(), 2);

    let fan2 = actor
        .set_message_like(message_id.clone(), "user2".to_string(), LikeType::Love, 3000)
        .unwrap();
    assert_eq!(fan2.len(), 2);

    // removing an absent like is a silent success that notifies nobody
    let fan3 = actor.remove_message_like(message_id.clone(), "user3".to_string(), 4000).unwrap();
    assert!(fan3.is_empty());

    // a missing message is an error
    assert_eq!(
        actor
            .remove_message_like("missing".to_string(), "user2".to_string(), 5000)
            .unwrap_err(),
        "Message not found"
    );

    actor.remove_message(message_id, 6000).unwrap();
    assert!(actor.get_chat().as_ref().unwrap().messages.is_empty());
}
