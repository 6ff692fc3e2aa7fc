//! Per-user list of owned posts: lightweight references appended when the
//! user creates a post, plus the matcher that view aggregators use to
//! filter full posts.

use vstd::prelude::*;
use vstd::string::*;
use crate::post::{post_filter_ok, post_term_ok, spec_post_matches, Post};
use crate::query::{text_exact_matches, text_matches, Query};
use crate::strutil::str_eq;

verus! {

/// Pointer to an owned post.
#[derive(Debug)]
pub struct PostRef {
    pub post_id: String,
    pub created_at: u64,
}

impl PostRef {
    pub fn new(post_id: String, now: u64) -> (r: PostRef)
        ensures
            r.post_id == post_id,
            r.created_at == now,
    {
        PostRef { post_id, created_at: now }
    }
}

/// The owned-post index of one user.
pub struct UserPosts {
    pub user_id: String,
    pub posts: Vec<PostRef>,
    pub created_at: u64,
    pub updated_at: u64,
}

impl UserPosts {
    pub fn new(user_id: String, now: u64) -> (r: UserPosts)
        ensures
            r.user_id == user_id,
            r.posts@.len() == 0,
            r.created_at == now,
            r.updated_at == now,
    {
        UserPosts { user_id, posts: Vec::new(), created_at: now, updated_at: now }
    }
}

/// Instruction to a fresh Post actor to initialize itself.
#[derive(Debug)]
pub struct InitPostTrigger {
    pub post_id: String,
    pub user_id: String,
    pub content: String,
}

/// Durable UserPosts actor: an optional `UserPosts` state created lazily.
pub struct UserPostsActor {
    pub id: String,
    pub state: Option<UserPosts>,
}

impl UserPostsActor {
    pub open spec fn wf(&self) -> bool {
        match self.state {
            Some(u) => u.user_id@ == self.id@,
            None => true,
        }
    }

    pub fn new(id: String) -> (r: UserPostsActor)
        ensures
            r.id == id,
            r.state is None,
            r.wf(),
    {
        UserPostsActor { id, state: None }
    }

    pub fn get_posts(&self) -> (r: &Option<UserPosts>)
        ensures
            r == &self.state,
    {
        &self.state
    }

    /// Mint a post id, record the reference, and instruct the new Post
    /// actor to initialize itself with the content.
    pub fn create_post(&mut self, content: String, now: u64) -> (r: Result<
        (String, InitPostTrigger),
        String,
    >)
        requires
            old(self).wf(),
        ensures
            final(self).wf(),
            final(self).id == old(self).id,
            r is Ok,
            final(self).state is Some,
            ({
                let u1 = final(self).state->0;
                let pre_posts = (match old(self).state {
                    Some(u) => u.posts@,
                    None => Seq::<PostRef>::empty(),
                });
                let id = r->Ok_0.0;
                let tg = r->Ok_0.1;
                &&& u1.user_id@ == old(self).id@
                &&& u1.posts@ == pre_posts.push(u1.posts@.last())
                &&& u1.posts@.last().post_id@ == id@
                &&& u1.posts@.last().created_at == now
                &&& u1.updated_at == now
                &&& tg.post_id@ == id@
                &&& tg.user_id@ == old(self).id@
                &&& tg.content == content
            }),
    {
        if self.state.is_none() {
            self.state = Some(UserPosts::new(self.id.clone(), now));
        }
        let state = match &mut self.state {
            Some(u) => u,
            None => {
                proof {
                    assert(false);
                }
                unreached()
            },
        };
        let post_id = crate::idgen::new_uuid();
        let trigger = InitPostTrigger {
            post_id: post_id.clone(),
            user_id: self.id.clone(),
            content,
        };
        let post_ref = PostRef::new(post_id.clone(), now);
        state.updated_at = now;
        state.posts.push(post_ref);
        Ok((post_id, trigger))
    }
}

/// Evaluates a parsed query against full posts (no comment search).
pub struct PostQueryMatcher {
    query: Query,
}

impl PostQueryMatcher {
    pub closed spec fn query_spec(&self) -> Query {
        self.query
    }

    pub fn new(query: &str) -> (r: PostQueryMatcher)
        ensures
            r.query_spec().terms_view() == crate::query::terms_of(
                crate::query::tokens_of(query@),
            ),
            r.query_spec().filters_view() == crate::query::filters_of(
                crate::query::tokens_of(query@),
            ),
    {
        PostQueryMatcher { query: Query::new(query) }
    }

    /// Whether the post matches the query.
    pub fn matches_post(&self, post: Post) -> (r: bool)
        ensures
            r == spec_post_matches(self.query_spec(), post),
    {
        let nf = self.query.field_filters.len();
        let mut i: usize = 0;
        while i < nf
            invariant
                i <= nf,
                nf == self.query.field_filters@.len(),
                forall|j: int|
                    0 <= j < i ==> #[trigger] post_filter_ok(
                        self.query.filters_view()[j].0,
                        self.query.filters_view()[j].1,
                        post,
                    ),
            decreases nf - i,
        {
            let field = &self.query.field_filters[i].0;
            let value = &self.query.field_filters[i].1;
            let ok: bool = if str_eq(field.as_str(), "created-by") || str_eq(
                field.as_str(),
                "createdby",
            ) {
                text_exact_matches(post.created_by.as_str(), value.as_str())
            } else if str_eq(field.as_str(), "content") {
                text_matches(post.content.as_str(), value.as_str())
            } else if str_eq(field.as_str(), "connection-type") || str_eq(
                field.as_str(),
                "connectiontype",
            ) {
                true
            } else {
                false
            };
            if !ok {
                proof {
                    assert(!post_filter_ok(
                        self.query.filters_view()[i as int].0,
                        self.query.filters_view()[i as int].1,
                        post,
                    ));
                }
                return false;
            }
            i = i + 1;
        }
        let nt = self.query.terms.len();
        let mut k: usize = 0;
        while k < nt
            invariant
                k <= nt,
                nt == self.query.terms@.len(),
                i == self.query.field_filters@.len(),
                forall|j: int|
                    0 <= j < i ==> #[trigger] post_filter_ok(
                        self.query.filters_view()[j].0,
                        self.query.filters_view()[j].1,
                        post,
                    ),
                forall|j: int|
                    0 <= j < k ==> #[trigger] post_term_ok(self.query.terms_view()[j], post),
            decreases nt - k,
        {
            let term = &self.query.terms[k];
            if !text_matches(post.content.as_str(), term.as_str()) {
                proof {
                    assert(!post_term_ok(self.query.terms_view()[k as int], post));
                }
                return false;
            }
            k = k + 1;
        }
        true
    }
}

} // verus!
