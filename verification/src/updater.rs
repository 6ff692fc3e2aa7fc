//! Per-creator coalescing buffer of post updates.  Updates are
//! deduplicated by post id (the newest wins); a drain partitions the
//! creator's connections — `Friend` first, else `Follower`, `Following`
//! never — and hands one reference batch to the creator's own timeline and
//! one tagged batch to each notified peer's timeline.

use vstd::prelude::*;
use vstd::string::*;
use crate::common::UserConnectionType;
use crate::idmap::IdEntry;
use crate::post::PostUpdate;
use crate::user::{ConnectedUser, User};
use crate::user_timeline::PostRef;

verus! {

/// Holds of buffered updates for a different post.
pub open spec fn update_id_ne(id: Seq<char>) -> spec_fn(PostUpdate) -> bool {
    |u: PostUpdate| u.post_id@ != id
}

/// The buffer without any update for the given post.
pub open spec fn without_update(s: Seq<PostUpdate>, id: Seq<char>) -> Seq<PostUpdate> {
    s.filter(update_id_ne(id))
}

/// The pending updates of one creator.
pub struct PostUpdates {
    pub user_id: String,
    pub updates: Vec<PostUpdate>,
    pub created_at: u64,
    pub updated_at: u64,
}

impl PostUpdates {
    pub fn new(user_id: String, now: u64) -> (r: PostUpdates)
        ensures
            r.user_id == user_id,
            r.updates@.len() == 0,
            r.created_at == now,
            r.updated_at == now,
    {
        PostUpdates { user_id, updates: Vec::new(), created_at: now, updated_at: now }
    }
}

/// The tag a peer is notified under, if any: `Friend` when the edge
/// carries `Friend`, else `Follower` when it carries `Follower`; an edge
/// carrying only `Following` is never notified.
pub open spec fn notify_of(cu: ConnectedUser) -> Option<UserConnectionType> {
    if cu.connection_types@.contains(UserConnectionType::Friend) {
        Some(UserConnectionType::Friend)
    } else if cu.connection_types@.contains(UserConnectionType::Follower) {
        Some(UserConnectionType::Follower)
    } else {
        None
    }
}

/// The peers to notify, in stored order, each with its tag.
pub open spec fn notify_list(s: Seq<IdEntry<ConnectedUser>>) -> Seq<
    (Seq<char>, UserConnectionType),
>
    decreases s.len(),
{
    if s.len() == 0 {
        Seq::empty()
    } else {
        let rest = notify_list(s.drop_last());
        match notify_of(s.last().val) {
            Some(t) => rest.push((s.last().key@, t)),
            None => rest,
        }
    }
}

/// One batch of references for one timeline.
#[derive(Debug)]
pub struct TimelineBatch {
    pub target_user_id: String,
    pub posts: Vec<PostRef>,
}

/// The batch mirrors the buffered updates one for one: same posts and
/// timestamps, created by the creator, tagged uniformly.
pub open spec fn batch_matches(
    posts: Seq<PostRef>,
    updates: Seq<PostUpdate>,
    creator: Seq<char>,
    tag: Option<UserConnectionType>,
) -> bool {
    &&& posts.len() == updates.len()
    &&& forall|i: int|
        0 <= i < posts.len() ==> {
            &&& (#[trigger] posts[i]).post_id@ == updates[i].post_id@
            &&& posts[i].created_by@ == creator
            &&& posts[i].created_by_connection_type == tag
            &&& posts[i].created_at == updates[i].created_at
            &&& posts[i].updated_at == updates[i].updated_at
        }
}

/// Build the reference batch for one target.
fn build_batch(
    updates: &Vec<PostUpdate>,
    creator: &String,
    tag: Option<UserConnectionType>,
) -> (r: Vec<PostRef>)
    ensures
        batch_matches(r@, updates@, creator@, tag),
{
    let n = updates.len();
    let mut r: Vec<PostRef> = Vec::new();
    let mut i: usize = 0;
    while i < n
        invariant
            i <= n,
            n == updates@.len(),
            r@.len() == i,
            forall|j: int|
                0 <= j < i ==> {
                    &&& (#[trigger] r@[j]).post_id@ == updates@[j].post_id@
                    &&& r@[j].created_by@ == creator@
                    &&& r@[j].created_by_connection_type == tag
                    &&& r@[j].created_at == updates@[j].created_at
                    &&& r@[j].updated_at == updates@[j].updated_at
                },
        decreases n - i,
    {
        let u = &updates[i];
        r.push(
            PostRef::new(u.post_id.clone(), creator.clone(), u.created_at, tag, u.updated_at),
        );
        i = i + 1;
    }
    r
}

/// Coalescing updater actor for one creator.
pub struct TimelinesUpdaterActor {
    pub state: PostUpdates,
}

impl TimelinesUpdaterActor {
    pub fn new(id: String, now: u64) -> (r: TimelinesUpdaterActor)
        ensures
            r.state.user_id == id,
            r.state.updates@.len() == 0,
            r.state.created_at == now,
            r.state.updated_at == now,
    {
        TimelinesUpdaterActor { state: PostUpdates::new(id, now) }
    }

    pub fn get_updates(&self) -> (r: &PostUpdates)
        ensures
            r == &self.state,
    {
        &self.state
    }

    /// Buffer one update, superseding any pending one for the same post;
    /// reports whether the caller should drain the buffer now.
    pub fn post_updated(&mut self, update: PostUpdate, process_immediately: bool, now: u64) -> (r:
        bool)
        ensures
            r == process_immediately,
            final(self).state.user_id == old(self).state.user_id,
            final(self).state.created_at == old(self).state.created_at,
            final(self).state.updated_at == now,
            final(self).state.updates@ == without_update(
                old(self).state.updates@,
                update.post_id@,
            ).push(update),
    {
        let ghost s0 = self.state.updates@;
        let ghost id = update.post_id@;
        let mut source: Vec<PostUpdate> = Vec::new();
        core::mem::swap(&mut source, &mut self.state.updates);
        let mut kept: Vec<PostUpdate> = Vec::new();
        let ghost mut seen: int = 0;
        proof {
            reveal(Seq::filter);
            assert(s0.subrange(0, 0) =~= Seq::<PostUpdate>::empty());
            assert(without_update(Seq::<PostUpdate>::empty(), id) =~= Seq::<PostUpdate>::empty());
        }
        while source.len() > 0
            invariant
                seen + source@.len() == s0.len(),
                0 <= seen <= s0.len(),
                source@ == s0.skip(seen),
                kept@ == without_update(s0.subrange(0, seen), id),
                id == update.post_id@,
            decreases source@.len(),
        {
            let u = source.remove(0);
            proof {
                reveal(Seq::filter);
                assert(u == s0[seen]);
                assert(source@ =~= s0.skip(seen + 1));
                let pre = s0.subrange(0, seen);
                let cur = s0.subrange(0, seen + 1);
                assert(cur.drop_last() =~= pre);
                assert(cur.last() == s0[seen]);
            }
            if !crate::strutil::str_eq(u.post_id.as_str(), update.post_id.as_str()) {
                kept.push(u);
            }
            proof {
                seen = seen + 1;
            }
        }
        kept.push(update);
        core::mem::swap(&mut kept, &mut self.state.updates);
        self.state.updated_at = now;
        proof {
            assert(s0.subrange(0, s0.len() as int) =~= s0);
        }
        process_immediately
    }

    /// Drain: clear the buffer and, when the creator's user state was
    /// found, hand back one untagged batch for the creator's own timeline
    /// followed by one tagged batch per notified peer.  A missing creator
    /// is a silent best-effort drop; an empty buffer does nothing.
    pub fn process_posts_updates(&mut self, creator: &Option<User>, now: u64) -> (r: Vec<
        TimelineBatch,
    >)
        ensures
            final(self).state.user_id == old(self).state.user_id,
            final(self).state.created_at == old(self).state.created_at,
            final(self).state.updates@.len() == 0,
            old(self).state.updates@.len() == 0 ==> *final(self) == *old(self) && r@.len() == 0,
            old(self).state.updates@.len() > 0 ==> final(self).state.updated_at == now,
            old(self).state.updates@.len() > 0 && creator is None ==> r@.len() == 0,
            old(self).state.updates@.len() > 0 && creator is Some ==> ({
                let u = creator->0;
                let nl = notify_list(u.connected_users@);
                &&& r@.len() == 1 + nl.len()
                &&& r@[0].target_user_id@ == old(self).state.user_id@
                &&& batch_matches(
                    r@[0].posts@,
                    old(self).state.updates@,
                    old(self).state.user_id@,
                    None,
                )
                &&& forall|k: int|
                    1 <= k < r@.len() ==> (#[trigger] r@[k]).target_user_id@ == nl[k - 1].0
                        && batch_matches(
                        r@[k].posts@,
                        old(self).state.updates@,
                        old(self).state.user_id@,
                        Some(nl[k - 1].1),
                    )
            }),
    {
        if self.state.updates.is_empty() {
            return Vec::new();
        }
        let mut batches: Vec<TimelineBatch> = Vec::new();
        match creator {
            Some(user) => {
                let own = build_batch(&self.state.updates, &self.state.user_id, None);
                batches.push(
                    TimelineBatch { target_user_id: self.state.user_id.clone(), posts: own },
                );
                let ghost cs = user.connected_users@;
                let n = user.connected_users.len();
                let mut i: usize = 0;
                proof {
                    assert(cs.subrange(0, 0) =~= Seq::<IdEntry<ConnectedUser>>::empty());
                }
                while i < n
                    invariant
                        i <= n,
                        n == cs.len(),
                        cs == user.connected_users@,
                        *self == *old(self),
                        self.state.updates@.len() > 0,
                        batches@.len() == 1 + notify_list(cs.subrange(0, i as int)).len(),
                        batches@[0].target_user_id@ == self.state.user_id@,
                        batch_matches(
                            batches@[0].posts@,
                            self.state.updates@,
                            self.state.user_id@,
                            None,
                        ),
                        forall|k: int|
                            1 <= k < batches@.len() ==> (#[trigger] batches@[k]).target_user_id@
                                == notify_list(cs.subrange(0, i as int))[k - 1].0 && batch_matches(
                                batches@[k].posts@,
                                self.state.updates@,
                                self.state.user_id@,
                                Some(notify_list(cs.subrange(0, i as int))[k - 1].1),
                            ),
                    decreases n - i,
                {
                    let ghost pre = cs.subrange(0, i as int);
                    let ghost cur = cs.subrange(0, i + 1);
                    proof {
                        assert(cur.drop_last() =~= pre);
                        assert(cur.last() == cs[i as int]);
                    }
                    let entry_val = user.connected_users.val_at(i);
                    let tag: Option<UserConnectionType> = if entry_val.connection_types.contains(
                        UserConnectionType::Friend,
                    ) {
                        Some(UserConnectionType::Friend)
                    } else if entry_val.connection_types.contains(UserConnectionType::Follower) {
                        Some(UserConnectionType::Follower)
                    } else {
                        None
                    };
                    if let Some(t) = tag {
                        let posts = build_batch(&self.state.updates, &self.state.user_id, Some(t));
                        let target = user.connected_users.key_at(i).clone();
                        batches.push(TimelineBatch { target_user_id: target, posts });
                    }
                    proof {
                        assert(notify_of(cs[i as int].val) == tag);
                        if tag is Some {
                            assert(notify_list(cur) == notify_list(pre).push(
                                (cs[i as int].key@, tag->0),
                            ));
                        } else {
                            assert(notify_list(cur) == notify_list(pre));
                        }
                    }
                    i = i + 1;
                }
                proof {
                    assert(cs.subrange(0, n as int) =~= cs);
                }
            },
            None => {},
        }
        self.state.updates.clear();
        self.state.updated_at = now;
        batches
    }
}

/// The fan-out partition never notifies an edge for `Following` alone, and
/// an edge carrying `Friend` is always notified as `Friend`, whatever else
/// it carries.
pub proof fn lemma_notify_priority(cu: ConnectedUser)
    ensures
        cu.connection_types@.contains(UserConnectionType::Friend) ==> notify_of(cu) == Some(
            UserConnectionType::Friend,
        ),
        !cu.connection_types@.contains(UserConnectionType::Friend)
            && cu.connection_types@.contains(UserConnectionType::Follower) ==> notify_of(cu)
            == Some(UserConnectionType::Follower),
        notify_of(cu) != Some(UserConnectionType::Following),
{
}

} // verus!
