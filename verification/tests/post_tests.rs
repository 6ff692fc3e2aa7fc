use social_net::common::LikeType;
use social_net::post::{Comment, Post, PostActor, PostUpdate};
use social_net::updater::{PostUpdates, TimelinesUpdaterActor};
use social_net::common::UserConnectionType;
use social_net::post::matches_post;
use social_net::query::Query;
use social_net::user::User;

fn create_test_post() -> Post {
    let mut post = Post::new("test-post-1".to_string(), 1000);
    post.created_by = "user1".to_string();
    post.content = "Test post content".to_string();
    post
}

fn fresh_id() -> String {
    uuid::Uuid::new_v4().to_string()
}

#[test]
fn test_post_new() {
    let post = Post::new("test-post".to_string(), 1000);
    assert_eq!(post.post_id, "test-post");
    assert_eq!(post.content, "");
    assert_eq!(post.created_by, "");
    assert!(post.likes.is_empty());
    assert!(post.comments.is_empty());
    assert_eq!(post.created_at, post.updated_at);
}

#[test]
fn test_set_like_new_user() {
    let mut post = create_test_post();
    let initial_updated_at = post.updated_at;

    let result = post.set_like("user2".to_string(), LikeType::Like, 2000);

    assert!(!result); // First time like, returns false (no previous like)
    assert_eq!(post.likes.len(), 1);
    assert_eq!(post.likes.get("user2"), Some(&LikeType::Like));
    assert!(post.updated_at > initial_updated_at);
}

#[test]
fn test_set_like_override_existing() {
    let mut post = create_test_post();

    // Add initial like
    post.set_like("user2".to_string(), LikeType::Like, 2000);
    let initial_updated_at = post.updated_at;

    // Override with different like type
    let result = post.set_like("user2".to_string(), LikeType::Love, 3000);

    assert!(result); // Override, returns true (previous like existed)
    assert_eq!(post.likes.len(), 1);
    assert_eq!(post.likes.get("user2"), Some(&LikeType::Love));
    assert!(post.updated_at > initial_updated_at);
}

#[test]
fn test_remove_like_success() {
    let mut post = create_test_post();

    // Add a like first
    post.set_like("user2".to_string(), LikeType::Like, 2000);
    assert_eq!(post.likes.len(), 1);

    let initial_updated_at = post.updated_at;

    // Remove the like
    let result = post.remove_like("user2".to_string(), 3000);

    assert!(result);
    assert_eq!(post.likes.len(), 0);
    assert!(post.updated_at > initial_updated_at);
}

#[test]
fn test_remove_like_not_found() {
    let mut post = create_test_post();
    let initial_updated_at = post.updated_at;

    // Try to remove non-existent like
    let result = post.remove_like("user2".to_string(), 2000);

    assert!(!result);
    assert_eq!(post.likes.len(), 0);
    assert_eq!(post.updated_at, initial_updated_at);
}

#[test]
fn test_add_comment_success() {
    let mut post = create_test_post();
    let initial_updated_at = post.updated_at;

    // Add root comment
    let result = post.add_comment("user2".to_string(), "Great post!".to_string(), None, fresh_id(), 2000);

    assert!(result.is_ok());
    let comment_id = result.unwrap();
    assert_eq!(post.comments.len(), 1);

    let comment = post.comments.get(&comment_id).unwrap();
    assert_eq!(comment.content, "Great post!");
    assert_eq!(comment.created_by, "user2");
    assert!(comment.parent_comment_id.is_none());
    assert!(comment.likes.is_empty());
    assert!(post.updated_at > initial_updated_at);
}

#[test]
fn test_add_comment_with_parent() {
    let mut post = create_test_post();

    // Add parent comment first
    let parent_id = post
        .add_comment("user2".to_string(), "Parent comment".to_string(), None, fresh_id(), 2000)
        .unwrap();

    // Add child comment
    let result = post.add_comment(
        "user3".to_string(),
        "Child comment".to_string(),
        Some(parent_id.clone()),
        fresh_id(),
        3000,
    );

    assert!(result.is_ok());
    let child_id = result.unwrap();
    assert_eq!(post.comments.len(), 2);

    let child_comment = post.comments.get(&child_id).unwrap();
    assert_eq!(child_comment.content, "Child comment");
    assert_eq!(child_comment.parent_comment_id, Some(parent_id));
}

#[test]
fn test_add_comment_parent_not_found() {
    let mut post = create_test_post();

    // Try to add comment with non-existent parent
    let result = post.add_comment(
        "user2".to_string(),
        "Orphan comment".to_string(),
        Some("non-existent".to_string()),
        fresh_id(),
        2000,
    );

    assert!(result.is_err());
    assert_eq!(result.unwrap_err(), "Parent comment not found");
    assert_eq!(post.comments.len(), 0);
}

#[test]
fn test_remove_comment_success() {
    let mut post = create_test_post();

    // Add a comment first
    let comment_id = post
        .add_comment("user2".to_string(), "Test comment".to_string(), None, fresh_id(), 2000)
        .unwrap();
    assert_eq!(post.comments.len(), 1);

    let initial_updated_at = post.updated_at;

    // Remove the comment
    let result = post.remove_comment(comment_id.clone(), 3000);

    assert!(result.is_ok());
    assert_eq!(post.comments.len(), 0);
    assert!(post.updated_at > initial_updated_at);
}

#[test]
fn test_remove_comment_not_found() {
    let mut post = create_test_post();
    let initial_updated_at = post.updated_at;

    // Try to remove non-existent comment
    let result = post.remove_comment("non-existent".to_string(), 2000);

    assert!(result.is_err());
    assert_eq!(result.unwrap_err(), "Comment not found");
    assert_eq!(post.comments.len(), 0);
    assert_eq!(post.updated_at, initial_updated_at);
}

#[test]
fn test_remove_comment_with_children() {
    let mut post = create_test_post();

    // Add parent comment
    let parent_id = post
        .add_comment("user2".to_string(), "Parent comment".to_string(), None, fresh_id(), 2000)
        .unwrap();

    // Add child comment
    let child_id = post
        .add_comment(
            "user3".to_string(),
            "Child comment".to_string(),
            Some(parent_id.clone()),
            fresh_id(),
            3000,
        )
        .unwrap();

    // Add grandchild comment
    let grandchild_id = post
        .add_comment(
            "user4".to_string(),
            "Grandchild comment".to_string(),
            Some(child_id.clone()),
            fresh_id(),
            4000,
        )
        .unwrap();

    assert_eq!(post.comments.len(), 3);

    // Remove parent comment (should remove all descendants)
    let result = post.remove_comment(parent_id.clone(), 5000);

    assert!(result.is_ok());
    assert_eq!(post.comments.len(), 0);

    // Verify all comments are removed
    assert!(!post.comments.contains_key(&parent_id));
    assert!(!post.comments.contains_key(&child_id));
    assert!(!post.comments.contains_key(&grandchild_id));
}

#[test]
fn test_remove_child_comment_only() {
    let mut post = create_test_post();

    // Add parent comment
    let parent_id = post
        .add_comment("user2".to_string(), "Parent comment".to_string(), None, fresh_id(), 2000)
        .unwrap();

    // Add child comment
    let child_id = post
        .add_comment(
            "user3".to_string(),
            "Child comment".to_string(),
            Some(parent_id.clone()),
            fresh_id(),
            3000,
        )
        .unwrap();

    assert_eq!(post.comments.len(), 2);

    // Remove only child comment
    let result = post.remove_comment(child_id.clone(), 4000);

    assert!(result.is_ok());
    assert_eq!(post.comments.len(), 1);

    // Verify parent remains, child is removed
    assert!(post.comments.contains_key(&parent_id));
    assert!(!post.comments.contains_key(&child_id));
}

#[test]
fn test_set_comment_like_success() {
    let mut post = create_test_post();
    let comment_id = post
        .add_comment("user2".to_string(), "Test comment".to_string(), None, fresh_id(), 2000)
        .unwrap();
    let initial_updated_at = post.comments.get(&comment_id).unwrap().updated_at;

    // Add a like to comment
    let result = post.set_comment_like(comment_id.clone(), "user3".to_string(), LikeType::Like, 3000);

    assert!(result.is_ok());
    let comment = post.comments.get(&comment_id).unwrap();
    assert_eq!(comment.likes.len(), 1);
    assert_eq!(comment.likes.get("user3"), Some(&LikeType::Like));
    assert!(comment.updated_at > initial_updated_at);
}

#[test]
fn test_set_comment_like_not_found() {
    let mut post = create_test_post();

    // Try to like non-existent comment
    let result = post.set_comment_like(
        "non-existent".to_string(),
        "user3".to_string(),
        LikeType::Like,
        2000,
    );

    assert!(result.is_err());
    assert_eq!(result.unwrap_err(), "Comment not found");
}

#[test]
fn test_remove_comment_like_success() {
    let mut post = create_test_post();
    let comment_id = post
        .add_comment("user2".to_string(), "Test comment".to_string(), None, fresh_id(), 2000)
        .unwrap();

    // Add a like first
    post.set_comment_like(comment_id.clone(), "user3".to_string(), LikeType::Like, 3000)
        .unwrap();
    let comment = post.comments.get(&comment_id).unwrap();
    assert_eq!(comment.likes.len(), 1);

    let initial_updated_at = comment.updated_at;

    // Remove the like
    let result = post.remove_comment_like(comment_id.clone(), "user3".to_string(), 4000);

    assert!(result.is_ok());
    let comment = post.comments.get(&comment_id).unwrap();
    assert_eq!(comment.likes.len(), 0);
    assert!(comment.updated_at > initial_updated_at);
}

#[test]
fn test_remove_comment_like_not_found() {
    let mut post = create_test_post();
    let comment_id = post
        .add_comment("user2".to_string(), "Test comment".to_string(), None, fresh_id(), 2000)
        .unwrap();
    let initial_updated_at = post.comments.get(&comment_id).unwrap().updated_at;

    // Try to remove like from non-existent comment
    let result1 = post.remove_comment_like("non-existent".to_string(), "user3".to_string(), 3000);

    // Try to remove non-existent like from existing comment
    let result2 = post.remove_comment_like(comment_id.clone(), "user3".to_string(), 4000);

    assert!(result1.is_err());
    assert_eq!(result1.unwrap_err(), "Comment not found");

    assert!(result2.is_ok()); // Function succeeds even if like didn't exist
    let comment = post.comments.get(&comment_id).unwrap();
    assert_eq!(comment.likes.len(), 0);
    assert_eq!(comment.updated_at, initial_updated_at); // Timestamp unchanged when no like removed
}

#[test]
fn test_comment_new() {
    let id = fresh_id();
    let comment = Comment::new(
        id,
        "user1".to_string(),
        "Test content".to_string(),
        Some("parent-id".to_string()),
        1000,
    );

    assert!(!comment.comment_id.is_empty());
    assert_eq!(comment.content, "Test content");
    assert_eq!(comment.created_by, "user1");
    assert_eq!(comment.parent_comment_id, Some("parent-id".to_string()));
    assert!(comment.likes.is_empty());
    assert_eq!(comment.created_at, comment.updated_at);

    // Test that comment_id is a valid UUID
    uuid::Uuid::parse_str(&comment.comment_id).unwrap();
}

#[test]
fn test_comment_new_no_parent() {
    let comment = Comment::new(fresh_id(), "user1".to_string(), "Test content".to_string(), None, 1000);

    assert!(!comment.comment_id.is_empty());
    assert_eq!(comment.content, "Test content");
    assert_eq!(comment.created_by, "user1");
    assert!(comment.parent_comment_id.is_none());
    assert!(comment.likes.is_empty());
    assert_eq!(comment.created_at, comment.updated_at);
}

#[test]
fn test_post_like_operations_integration() {
    let mut post = create_test_post();

    // Add multiple likes
    assert!(!post.set_like("user2".to_string(), LikeType::Like, 2000));
    assert!(!post.set_like("user3".to_string(), LikeType::Love, 3000));
    assert!(!post.set_like("user4".to_string(), LikeType::Insightful, 4000));

    assert_eq!(post.likes.len(), 3);

    // Remove one like
    assert!(post.remove_like("user3".to_string(), 5000));

    assert_eq!(post.likes.len(), 2);
    assert_eq!(post.likes.get("user2"), Some(&LikeType::Like));
    assert_eq!(post.likes.get("user4"), Some(&LikeType::Insightful));
    assert!(post.likes.get("user3").is_none());

    // Override remaining like
    assert!(post.set_like("user2".to_string(), LikeType::Dislike, 6000));

    assert_eq!(post.likes.len(), 2);
    assert_eq!(post.likes.get("user2"), Some(&LikeType::Dislike));
    assert_eq!(post.likes.get("user4"), Some(&LikeType::Insightful));
}

#[test]
fn test_comment_like_operations_integration() {
    let mut post = create_test_post();
    let comment_id = post
        .add_comment("user2".to_string(), "Test comment".to_string(), None, fresh_id(), 2000)
        .unwrap();

    // Add multiple likes to comment
    assert!(post
        .set_comment_like(comment_id.clone(), "user3".to_string(), LikeType::Like, 3000)
        .is_ok());
    assert!(post
        .set_comment_like(comment_id.clone(), "user4".to_string(), LikeType::Love, 4000)
        .is_ok());
    assert!(post
        .set_comment_like(comment_id.clone(), "user5".to_string(), LikeType::Insightful, 5000)
        .is_ok());

    let comment = post.comments.get(&comment_id).unwrap();
    assert_eq!(comment.likes.len(), 3);

    // Remove one like
    assert!(post.remove_comment_like(comment_id.clone(), "user4".to_string(), 6000).is_ok());

    let comment = post.comments.get(&comment_id).unwrap();
    assert_eq!(comment.likes.len(), 2);
    assert_eq!(comment.likes.get("user3"), Some(&LikeType::Like));
    assert_eq!(comment.likes.get("user5"), Some(&LikeType::Insightful));
    assert!(comment.likes.get("user4").is_none());

    // Override remaining like
    assert!(post
        .set_comment_like(comment_id.clone(), "user3".to_string(), LikeType::Dislike, 7000)
        .is_ok());

    let comment = post.comments.get(&comment_id).unwrap();
    assert_eq!(comment.likes.len(), 2);
    assert_eq!(comment.likes.get("user3"), Some(&LikeType::Dislike));
    assert_eq!(comment.likes.get("user5"), Some(&LikeType::Insightful));
}

#[test]
fn test_all_post_like_types() {
    let mut post = create_test_post();

    let like_types = vec![LikeType::Like, LikeType::Love, LikeType::Insightful, LikeType::Dislike];

    for (i, like_type) in like_types.iter().enumerate() {
        let user_id = format!("user{}", i + 2);
        assert!(!post.set_like(user_id, *like_type, 2000 + i as u64));
    }

    assert_eq!(post.likes.len(), 4);
    assert_eq!(post.likes.get("user2"), Some(&LikeType::Like));
    assert_eq!(post.likes.get("user3"), Some(&LikeType::Love));
    assert_eq!(post.likes.get("user4"), Some(&LikeType::Insightful));
    assert_eq!(post.likes.get("user5"), Some(&LikeType::Dislike));
}

#[test]
fn test_all_comment_like_types() {
    let mut post = create_test_post();
    let comment_id = post
        .add_comment("user2".to_string(), "Test comment".to_string(), None, fresh_id(), 2000)
        .unwrap();

    let like_types = vec![LikeType::Like, LikeType::Love, LikeType::Insightful, LikeType::Dislike];

    for (i, like_type) in like_types.iter().enumerate() {
        let user_id = format!("user{}", i + 3);
        assert!(post
            .set_comment_like(comment_id.clone(), user_id, *like_type, 3000 + i as u64)
            .is_ok());
    }

    let comment = post.comments.get(&comment_id).unwrap();
    assert_eq!(comment.likes.len(), 4);
    assert_eq!(comment.likes.get("user3"), Some(&LikeType::Like));
    assert_eq!(comment.likes.get("user4"), Some(&LikeType::Love));
    assert_eq!(comment.likes.get("user5"), Some(&LikeType::Insightful));
    assert_eq!(comment.likes.get("user6"), Some(&LikeType::Dislike));
}

#[test]
fn test_complex_comment_hierarchy() {
    let mut post = create_test_post();

    // Create a complex hierarchy:
    // comment1
    // ├── comment2
    // │   └── comment4
    // └── comment3

    let comment1 = post
        .add_comment("user2".to_string(), "Comment 1".to_string(), None, fresh_id(), 2000)
        .unwrap();
    let comment2 = post
        .add_comment(
            "user3".to_string(),
            "Comment 2".to_string(),
            Some(comment1.clone()),
            fresh_id(),
            3000,
        )
        .unwrap();
    let comment3 = post
        .add_comment(
            "user4".to_string(),
            "Comment 3".to_string(),
            Some(comment1.clone()),
            fresh_id(),
            4000,
        )
        .unwrap();
    let comment4 = post
        .add_comment(
            "user5".to_string(),
            "Comment 4".to_string(),
            Some(comment2.clone()),
            fresh_id(),
            5000,
        )
        .unwrap();

    assert_eq!(post.comments.len(), 4);

    // Remove comment2 (should also remove comment4)
    assert!(post.remove_comment(comment2.clone(), 6000).is_ok());

    assert_eq!(post.comments.len(), 2);
    assert!(post.comments.contains_key(&comment1));
    assert!(post.comments.contains_key(&comment3));
    assert!(!post.comments.contains_key(&comment2));
    assert!(!post.comments.contains_key(&comment4));

    // Remove comment1 (should also remove comment3)
    assert!(post.remove_comment(comment1.clone(), 7000).is_ok());

    assert_eq!(post.comments.len(), 0);
}

#[test]
fn test_post_update_from() {
    let post = create_test_post();
    let update = PostUpdate::from(&post);

    assert_eq!(update.post_id, post.post_id);
    assert_eq!(update.created_at, post.created_at);
    assert_eq!(update.updated_at, post.updated_at);
}

#[test]
fn test_post_updates_new() {
    let updates = PostUpdates::new("user1".to_string(), 1000);

    assert_eq!(updates.user_id, "user1");
    assert!(updates.updates.is_empty());
    assert_eq!(updates.created_at, updates.updated_at);
}

#[test]
fn test_post_actor_lifecycle() {
    let mut actor = PostActor::new("post-1".to_string());
    assert!(actor.get_post().is_none());

    // mutations before init fail
    assert_eq!(
        actor.set_like("user2".to_string(), LikeType::Like, 500).unwrap_err(),
        "Post not exists"
    );

    let trigger = actor.init_post("user1".to_string(), "Hello".to_string(), 1000).unwrap();
    assert_eq!(trigger.creator_id, "user1");
    assert_eq!(trigger.update.post_id, "post-1");
    assert!(trigger.immediate);

    // a second init is refused
    assert_eq!(
        actor.init_post("user1".to_string(), "Again".to_string(), 2000).unwrap_err(),
        "Post already exists"
    );

    // comments through the actor mint UUID ids
    let (comment_id, tg) =
        actor.add_comment("user2".to_string(), "Nice".to_string(), None, 3000).unwrap();
    uuid::Uuid::parse_str(&comment_id).unwrap();
    assert_eq!(tg.creator_id, "user2");
    assert!(!tg.immediate);
    assert_eq!(actor.get_post().as_ref().unwrap().comments.len(), 1);

    let rm = actor.remove_comment(comment_id, 4000).unwrap();
    assert_eq!(rm.creator_id, "user1");
    assert_eq!(actor.get_post().as_ref().unwrap().comments.len(), 0);
}

#[test]
fn test_updater_coalesces_and_partitions() {

    let mut updater = TimelinesUpdaterActor::new("user1".to_string(), 1000);

    let u1 = PostUpdate { post_id: "p1".to_string(), created_at: 10, updated_at: 20 };
    let u1b = PostUpdate { post_id: "p1".to_string(), created_at: 10, updated_at: 30 };
    let u2 = PostUpdate { post_id: "p2".to_string(), created_at: 15, updated_at: 25 };

    assert!(!updater.post_updated(u1, false, 2000));
    assert!(!updater.post_updated(u2, false, 3000));
    // the same post id replaces the pending entry
    assert!(updater.post_updated(u1b, true, 4000));
    assert_eq!(updater.get_updates().updates.len(), 2);

    // the creator's connections: a friend, a follower, a following-only peer
    let mut creator = User::new("user1".to_string(), 100);
    creator.connect_user("friend".to_string(), UserConnectionType::Friend, 200);
    creator.connect_user("friend".to_string(), UserConnectionType::Follower, 250);
    creator.connect_user("follower".to_string(), UserConnectionType::Follower, 300);
    creator.connect_user("watched".to_string(), UserConnectionType::Following, 400);

    let batches = updater.process_posts_updates(&Some(creator), 5000);
    assert!(updater.get_updates().updates.is_empty());

    // one batch for the creator, one per notified peer; Following is never notified
    assert_eq!(batches.len(), 3);
    assert_eq!(batches[0].target_user_id, "user1");
    assert_eq!(batches[0].posts.len(), 2);
    assert!(batches[0].posts.iter().all(|p| p.created_by_connection_type.is_none()));
    // the replaced update carries the newer timestamp
    assert!(batches[0].posts.iter().any(|p| p.post_id == "p1" && p.updated_at == 30));

    assert_eq!(batches[1].target_user_id, "friend");
    assert!(batches[1].posts.iter().all(
        |p| p.created_by_connection_type == Some(UserConnectionType::Friend)
    ));
    assert_eq!(batches[2].target_user_id, "follower");
    assert!(batches[2].posts.iter().all(
        |p| p.created_by_connection_type == Some(UserConnectionType::Follower)
    ));

    // a missing creator drops the batches but still clears the buffer
    let u3 = PostUpdate { post_id: "p3".to_string(), created_at: 1, updated_at: 2 };
    updater.post_updated(u3, false, 6000);
    let dropped = updater.process_posts_updates(&None, 7000);
    assert!(dropped.is_empty());
    assert!(updater.get_updates().updates.is_empty());
}

#[test]
fn test_matches_post_comments_filter() {

    let mut post = create_test_post();
    post.add_comment("user2".to_string(), "insightful remark".to_string(), None, fresh_id(), 2000)
        .unwrap();

    assert!(matches_post(post_copy(&post), Query::new("comments:remark")));
    assert!(!matches_post(post_copy(&post), Query::new("comments:nothing")));
    assert!(matches_post(post_copy(&post), Query::new("created-by:user1 content:Test")));
    assert!(!matches_post(post_copy(&post), Query::new("created-by:USER1")));
    assert!(matches_post(post_copy(&post), Query::new("test CONTENT")));
    assert!(!matches_post(post_copy(&post), Query::new("test missing")));
}

fn post_copy(p: &Post) -> Post {
    let mut c = Post::new(p.post_id.clone(), p.created_at);
    c.created_by = p.created_by.clone();
    c.content = p.content.clone();
    c.add_comment(
        "user2".to_string(),
        "insightful remark".to_string(),
        None,
        uuid::Uuid::new_v4().to_string(),
        2000,
    )
    .unwrap();
    c
}
