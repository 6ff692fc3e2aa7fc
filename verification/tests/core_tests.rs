use social_net::common::UserConnectionType;
use social_net::ids::get_user_ids;
use social_net::poll::{effective_waits, poll_step, PollOutcome};
use social_net::query::{
    opt_text_exact_matches, opt_text_matches, text_exact_matches, text_matches, tokenize, Query,
};
use social_net::snapshot::{decode_snapshot, encode_snapshot};
use social_net::user_chats::UserChatsActor;
use social_net::user_posts::UserPostsActor;
use social_net::user_timeline::{PostRef, UserTimelineActor};
use social_net::user_timeline::PostQueryMatcher;
use social_net::chat::Chat;
use social_net::user_chats::ChatQueryMatcher;
use social_net::poll::run_empty_poll_schedule;

#[test]
fn test_tokenize_plain_and_quoted() {
    assert_eq!(tokenize("alpha beta"), vec!["alpha".to_string(), "beta".to_string()]);
    assert_eq!(tokenize("  spaced   out "), vec!["spaced".to_string(), "out".to_string()]);
    // quotes keep inner spaces and are dropped themselves
    assert_eq!(tokenize("name:\"User One\" rest"), vec![
        "name:User One".to_string(),
        "rest".to_string()
    ]);
    assert_eq!(tokenize(""), Vec::<String>::new());
}

#[test]
fn test_query_new_splits_fields() {
    let q = Query::new("name:\"User\" u00 EMAIL:x@y.z");
    assert_eq!(q.terms, vec!["u00".to_string()]);
    // the field name is lowercased, the value is untouched
    assert_eq!(q.field_filters, vec![
        ("name".to_string(), "User".to_string()),
        ("email".to_string(), "x@y.z".to_string())
    ]);
}

#[test]
fn test_text_match_primitives() {
    assert!(text_matches("Hello World", "world"));
    assert!(!text_matches("Hello World", "mars"));
    assert!(text_matches("anything", "*"));
    assert!(text_exact_matches("abc", "abc"));
    assert!(!text_exact_matches("abc", "ABC"));
    assert!(text_exact_matches("abc", "*"));
    assert!(opt_text_matches(Some("John Doe".to_string()), "john"));
    assert!(!opt_text_matches(None, "john"));
    assert!(opt_text_matches(None, "*"));
    assert!(opt_text_exact_matches(Some("a@b.c".to_string()), "a@b.c"));
    assert!(!opt_text_exact_matches(Some("a@b.c".to_string()), "A@B.C"));
}

#[test]
fn test_poll_step_outcomes() {
    // a missing subject stops with None
    match poll_step::<u32>(None, 0, 10000, 1000) {
        PollOutcome::Finished(r) => assert!(r.is_none()),
        PollOutcome::RetryAfter(_) => panic!("must stop on a missing subject"),
    }
    // data stops at once
    match poll_step(Some(vec![7u32]), 0, 10000, 1000) {
        PollOutcome::Finished(r) => assert_eq!(r.unwrap(), vec![7u32]),
        PollOutcome::RetryAfter(_) => panic!("must stop on data"),
    }
    // empty data retries until the deadline, then stops empty
    match poll_step(Some(Vec::<u32>::new()), 9999, 10000, 1000) {
        PollOutcome::RetryAfter(w) => assert_eq!(w, 1000),
        PollOutcome::Finished(_) => panic!("must retry before the deadline"),
    }
    match poll_step(Some(Vec::<u32>::new()), 10000, 10000, 1000) {
        PollOutcome::Finished(r) => assert!(r.unwrap().is_empty()),
        PollOutcome::RetryAfter(_) => panic!("must stop at the deadline"),
    }
    assert_eq!(effective_waits(None, None), (1000, 10000));
    assert_eq!(effective_waits(Some(500), Some(4000)), (500, 4000));
}

#[test]
fn test_poll_loop_with_always_empty_fetch() {
    // simulate the host loop with an exact clock: an always-empty fetch
    // polls once per iteration wait and returns after the maximum wait,
    // never exceeding it by more than one iteration
    let (iter_wait, max_wait) = effective_waits(Some(1000), Some(10000));
    let mut elapsed: u64 = 0;
    let mut fetches: u32 = 0;
    let result;
    loop {
        let fetched: Option<Vec<u32>> = Some(Vec::new());
        fetches += 1;
        match poll_step(fetched, elapsed, max_wait, iter_wait) {
            PollOutcome::Finished(r) => {
                result = r;
                break;
            }
            PollOutcome::RetryAfter(w) => {
                elapsed += w;
            }
        }
    }
    assert_eq!(result.unwrap(), Vec::<u32>::new());
    assert_eq!(fetches, 11); // one initial fetch plus one per full wait
    assert_eq!(elapsed, 10000);
    assert!(elapsed <= max_wait + iter_wait);
}

#[test]
fn test_snapshot_round_trip() {
    let payload: Vec<u8> = vec![10, 20, 30];
    let encoded = encode_snapshot(&payload);
    assert_eq!(encoded, vec![1u8, 10, 20, 30]);
    let decoded = decode_snapshot(&encoded).unwrap();
    assert_eq!(decoded, payload);

    // an empty payload still carries its version byte
    let empty = encode_snapshot(&Vec::new());
    assert_eq!(empty, vec![1u8]);
    assert_eq!(decode_snapshot(&empty).unwrap(), Vec::<u8>::new());
}

#[test]
fn test_snapshot_unknown_version() {
    let bad: Vec<u8> = vec![2u8, 1, 2, 3];
    assert_eq!(decode_snapshot(&bad).unwrap_err(), "Unsupported serialization version");
}

#[test]
fn test_get_user_ids_shape() {
    let ids = get_user_ids();
    assert_eq!(ids.len(), 100);
    assert_eq!(ids[0], "u001");
    assert_eq!(ids[9], "u010");
    assert_eq!(ids[99], "u100");
}

#[test]
fn test_timeline_batch_replaces_existing_id() {
    let mut timeline = UserTimelineActor::new("user1".to_string());
    let r1 = PostRef::new("p1".to_string(), "author".to_string(), 10, None, 100);
    let r2 = PostRef::new("p2".to_string(), "author".to_string(), 20, None, 50);
    timeline.posts_updated(vec![r1, r2], 1000);

    // a batch with an already-present id replaces the entry, no duplicate
    let r1b = PostRef::new("p1".to_string(), "author".to_string(), 10, None, 200);
    timeline.posts_updated(vec![r1b], 2000);

    let t = timeline.get_timeline().as_ref().unwrap();
    assert_eq!(t.posts.len(), 2);
    assert_eq!(t.posts[0].post_id, "p1");
    assert_eq!(t.posts[0].updated_at, 200);
    assert_eq!(t.posts[1].post_id, "p2");
}

#[test]
fn test_timeline_sorted_descending() {
    let mut timeline = UserTimelineActor::new("user1".to_string());
    let refs = vec![
        PostRef::new("a".to_string(), "x".to_string(), 1, None, 30),
        PostRef::new("b".to_string(), "x".to_string(), 2, None, 90),
        PostRef::new("c".to_string(), "x".to_string(), 3, None, 60),
    ];
    timeline.posts_updated(refs, 1000);
    let t = timeline.get_timeline().as_ref().unwrap();
    let times: Vec<u64> = t.posts.iter().map(|p| p.updated_at).collect();
    assert_eq!(times, vec![90, 60, 30]);
}

#[test]
fn test_timeline_caps_at_five_hundred() {
    let mut timeline = UserTimelineActor::new("user1".to_string());
    let mut batch = Vec::new();
    for i in 0..501u64 {
        batch.push(PostRef::new(format!("p{}", i), "x".to_string(), i, None, i + 1));
    }
    timeline.posts_updated(batch, 1000);
    let t = timeline.get_timeline().as_ref().unwrap();
    assert_eq!(t.posts.len(), 500);
    // exactly the 500 most recently updated remain: the oldest (updated at
    // 1) fell off
    assert_eq!(t.posts[0].updated_at, 501);
    assert_eq!(t.posts[499].updated_at, 2);
    assert!(t.posts.iter().all(|p| p.post_id != "p0"));
}

#[test]
fn test_timeline_get_updates_since() {
    let mut timeline = UserTimelineActor::new("user1".to_string());
    assert!(timeline.get_updates(0).is_none());
    let refs = vec![
        PostRef::new("a".to_string(), "x".to_string(), 1, None, 30),
        PostRef::new("b".to_string(), "x".to_string(), 2, None, 90),
    ];
    timeline.posts_updated(refs, 1000);
    let upd = timeline.get_updates(50).unwrap();
    assert_eq!(upd.user_id, "user1");
    assert_eq!(upd.posts.len(), 1);
    assert_eq!(upd.posts[0].post_id, "b");
    let all = timeline.get_updates(0).unwrap();
    assert_eq!(all.posts.len(), 2);
}

#[test]
fn test_user_posts_create_post() {
    let mut actor = UserPostsActor::new("user1".to_string());
    let (post_id, trigger) = actor.create_post("Hello social network!".to_string(), 1000).unwrap();
    uuid::Uuid::parse_str(&post_id).unwrap();
    assert_eq!(trigger.post_id, post_id);
    assert_eq!(trigger.user_id, "user1");
    assert_eq!(trigger.content, "Hello social network!");

    let state = actor.get_posts().as_ref().unwrap();
    assert_eq!(state.user_id, "user1");
    assert_eq!(state.posts.len(), 1);
    assert_eq!(state.posts[0].post_id, post_id);
}

#[test]
fn test_user_chats_create_and_track() {
    let mut actor = UserChatsActor::new("user1".to_string());

    // only the caller itself listed: no chat
    assert_eq!(
        actor.create_chat(vec!["user1".to_string()], 1000).unwrap_err(),
        "Chat must have at least 2 participants"
    );

    let (chat_id, trigger) = actor.create_chat(vec!["user2".to_string()], 2000).unwrap();
    uuid::Uuid::parse_str(&chat_id).unwrap();
    assert_eq!(trigger.created_by, "user1");
    assert!(trigger.participants.contains("user2"));
    assert!(!trigger.participants.contains("user1"));

    // a chat this user created must not come back as "added"
    assert_eq!(
        actor.add_chat("other".to_string(), "user1".to_string(), 3000).unwrap_err(),
        "Chat created by current user"
    );

    // an unknown chat cannot be marked updated
    assert_eq!(actor.chat_updated("missing".to_string(), 4000, 4000).unwrap_err(), "Chat not found");

    // add a chat created by someone else, idempotently
    actor.add_chat("chat-9".to_string(), "user3".to_string(), 5000).unwrap();
    actor.add_chat("chat-9".to_string(), "user3".to_string(), 6000).unwrap();
    let state = actor.get_chats().as_ref().unwrap();
    assert_eq!(state.chats.len(), 2);

    // updates-since uses a strict bound on the reference timestamp
    actor.chat_updated("chat-9".to_string(), 9000, 9000).unwrap();
    let upd = actor.get_updates(5000).unwrap();
    assert_eq!(upd.chats.len(), 1);
    assert_eq!(upd.chats[0].chat_id, "chat-9");
    assert_eq!(upd.chats[0].updated_at, 9000);
}

#[test]
fn test_connection_type_labels() {
    assert_eq!(UserConnectionType::Friend.label(), "Friend");
    assert_eq!(UserConnectionType::Follower.get_opposite(), UserConnectionType::Following);
    assert_eq!(UserConnectionType::Following.get_opposite(), UserConnectionType::Follower);
    assert_eq!(UserConnectionType::Friend.get_opposite(), UserConnectionType::Friend);
    assert!(social_net::common::LikeType::Like.is_positive());
    assert!(social_net::common::LikeType::Dislike.is_negative());
}

#[test]
fn test_timeline_ref_matcher() {

    let tagged = PostRef::new(
        "p1".to_string(),
        "author".to_string(),
        1,
        Some(UserConnectionType::Friend),
        2,
    );
    let untagged = PostRef::new("p2".to_string(), "author".to_string(), 1, None, 2);

    let m = PostQueryMatcher::new("connection-type:Friend");
    assert!(m.matches_post_ref(tagged));
    assert!(!m.matches_post_ref(untagged));

    let by = PostQueryMatcher::new("created-by:author content:whatever");
    assert!(by.matches_post_ref(PostRef::new(
        "p3".to_string(),
        "author".to_string(),
        1,
        None,
        2
    )));
    assert!(!by.matches_post_ref(PostRef::new(
        "p4".to_string(),
        "someone".to_string(),
        1,
        None,
        2
    )));
}

#[test]
fn test_chat_matcher() {

    fn sample() -> Chat {
        let mut chat = Chat::new("c1".to_string(), 1000);
        chat.created_by = "user1".to_string();
        chat.participants.insert("user1".to_string());
        chat.participants.insert("user2".to_string());
        chat
    }

    assert!(ChatQueryMatcher::new("created-by:user1").matches_chat(sample()));
    assert!(!ChatQueryMatcher::new("created-by:user9").matches_chat(sample()));
    assert!(ChatQueryMatcher::new("participants:user2").matches_chat(sample()));
    assert!(!ChatQueryMatcher::new("participants:user3").matches_chat(sample()));
    // a bare term matches the creator by substring or a participant exactly
    assert!(ChatQueryMatcher::new("USER1").matches_chat(sample()));
    assert!(ChatQueryMatcher::new("user2").matches_chat(sample()));
    assert!(!ChatQueryMatcher::new("user3").matches_chat(sample()));
}

#[test]
fn test_empty_poll_schedule_bounds() {

    assert_eq!(run_empty_poll_schedule(10000, 1000), (11, 10000));
    assert_eq!(run_empty_poll_schedule(10000, 3000), (5, 12000));
    assert_eq!(run_empty_poll_schedule(0, 500), (1, 0));
}
