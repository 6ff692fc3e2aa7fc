//! Per-user timeline: a capped list of post references, deduplicated by
//! post id with last-write-wins, sorted by descending update time.

use vstd::prelude::*;
use vstd::string::*;
use crate::common::UserConnectionType;
use crate::post::{post_filter_ok, post_term_ok, spec_post_matches, Post};
use crate::query::{
    opt_text_exact_matches, spec_opt_text_exact_matches, text_exact_matches, text_matches, Query,
};
use crate::strutil::str_eq;

verus! {

/// Most references a timeline retains.
pub const TIMELINE_MAX_POSTS: usize = 500;

/// Denormalized pointer to a post, with provenance for notified peers.
#[derive(Debug)]
pub struct PostRef {
    pub post_id: String,
    pub created_by: String,
    pub created_by_connection_type: Option<UserConnectionType>,
    pub created_at: u64,
    pub updated_at: u64,
}

impl PostRef {
    pub fn new(
        post_id: String,
        created_by: String,
        created_at: u64,
        created_by_connection_type: Option<UserConnectionType>,
        updated_at: u64,
    ) -> (r: PostRef)
        ensures
            r.post_id == post_id,
            r.created_by == created_by,
            r.created_by_connection_type == created_by_connection_type,
            r.created_at == created_at,
            r.updated_at == updated_at,
    {
        PostRef { post_id, created_by, created_by_connection_type, created_at, updated_at }
    }

    /// A field-for-field copy.
    pub fn duplicate(&self) -> (r: PostRef)
        ensures
            ref_like(r, *self),
    {
        PostRef {
            post_id: self.post_id.clone(),
            created_by: self.created_by.clone(),
            created_by_connection_type: self.created_by_connection_type,
            created_at: self.created_at,
            updated_at: self.updated_at,
        }
    }
}

/// Two references carry the same data.
pub open spec fn ref_like(a: PostRef, b: PostRef) -> bool {
    &&& a.post_id@ == b.post_id@
    &&& a.created_by@ == b.created_by@
    &&& a.created_by_connection_type == b.created_by_connection_type
    &&& a.created_at == b.created_at
    &&& a.updated_at == b.updated_at
}

/// Some reference in `s` points at post `id`.
pub open spec fn refs_have_id(s: Seq<PostRef>, id: Seq<char>) -> bool {
    exists|i: int| 0 <= i < s.len() && s[i].post_id@ == id
}

/// No two references point at the same post.
pub open spec fn unique_ref_ids(s: Seq<PostRef>) -> bool {
    forall|i: int, j: int| 0 <= i < j < s.len() ==> s[i].post_id@ != s[j].post_id@
}

/// Holds of references whose post is not referenced by `b`.
pub open spec fn ref_id_not_in(b: Seq<PostRef>) -> spec_fn(PostRef) -> bool {
    |p: PostRef| !refs_have_id(b, p.post_id@)
}

/// The timeline after taking a batch in, before sorting and capping: the
/// old references not superseded by the batch, then the batch.
pub open spec fn merged_posts(old_posts: Seq<PostRef>, batch: Seq<PostRef>) -> Seq<PostRef> {
    old_posts.filter(ref_id_not_in(batch)) + batch
}

/// Descending by `updated_at`.
pub open spec fn sorted_desc(s: Seq<PostRef>) -> bool {
    forall|i: int, j: int| 0 <= i < j < s.len() ==> s[i].updated_at >= s[j].updated_at
}

/// Insert `x` into a descending list: after every element at least as
/// recent, before the first strictly older one.
pub open spec fn insert_desc(s: Seq<PostRef>, x: PostRef) -> Seq<PostRef>
    decreases s.len(),
{
    if s.len() == 0 {
        seq![x]
    } else if x.updated_at > s[0].updated_at {
        seq![x] + s
    } else {
        seq![s[0]] + insert_desc(s.subrange(1, s.len() as int), x)
    }
}

/// Stable insertion sort, descending by `updated_at`.
pub open spec fn sort_desc(s: Seq<PostRef>) -> Seq<PostRef>
    decreases s.len(),
{
    if s.len() == 0 {
        s
    } else {
        insert_desc(sort_desc(s.drop_last()), s.last())
    }
}

pub proof fn lemma_insert_desc_props(s: Seq<PostRef>, x: PostRef)
    ensures
        insert_desc(s, x).len() == s.len() + 1,
        sorted_desc(s) ==> sorted_desc(insert_desc(s, x)),
        forall|id: Seq<char>| #[trigger] refs_have_id(insert_desc(s, x), id) == (refs_have_id(
            s,
            id,
        ) || x.post_id@ == id),
        forall|p: PostRef| #[trigger] insert_desc(s, x).contains(p) == (s.contains(p) || p == x),
        unique_ref_ids(s) && !refs_have_id(s, x.post_id@) ==> unique_ref_ids(insert_desc(s, x)),
    decreases s.len(),
{
    let t = insert_desc(s, x);
    if s.len() == 0 {
        assert(t =~= seq![x]);
        assert forall|id: Seq<char>| #[trigger] refs_have_id(t, id) == (refs_have_id(s, id)
            || x.post_id@ == id) by {
            if refs_have_id(t, id) {
                let i = choose|i: int| 0 <= i < t.len() && t[i].post_id@ == id;
                assert(t[i] == x);
            }
            if x.post_id@ == id {
                assert(t[0].post_id@ == id);
            }
        }
        assert forall|p: PostRef| #[trigger] t.contains(p) == (s.contains(p) || p == x) by {
            if t.contains(p) {
                let i = choose|i: int| 0 <= i < t.len() && t[i] == p;
                assert(t[i] == x);
            }
            if p == x {
                assert(t[0] == p);
            }
        }
    } else if x.updated_at > s[0].updated_at {
        assert(t =~= seq![x] + s);
        assert forall|id: Seq<char>| #[trigger] refs_have_id(t, id) == (refs_have_id(s, id)
            || x.post_id@ == id) by {
            if refs_have_id(t, id) {
                let i = choose|i: int| 0 <= i < t.len() && t[i].post_id@ == id;
                if i >= 1 {
                    assert(s[i - 1].post_id@ == id);
                }
            }
            if refs_have_id(s, id) {
                let i = choose|i: int| 0 <= i < s.len() && s[i].post_id@ == id;
                assert(t[i + 1].post_id@ == id);
            }
            if x.post_id@ == id {
                assert(t[0].post_id@ == id);
            }
        }
        assert forall|p: PostRef| #[trigger] t.contains(p) == (s.contains(p) || p == x) by {
            if t.contains(p) {
                let i = choose|i: int| 0 <= i < t.len() && t[i] == p;
                if i >= 1 {
                    assert(s[i - 1] == p);
                }
            }
            if s.contains(p) {
                let i = choose|i: int| 0 <= i < s.len() && s[i] == p;
                assert(t[i + 1] == p);
            }
            if p == x {
                assert(t[0] == p);
            }
        }
        if sorted_desc(s) {
            assert forall|i: int, j: int|
                0 <= i < j < t.len() implies t[i].updated_at >= t[j].updated_at by {
                if i >= 1 {
                    assert(t[i] == s[i - 1]);
                    assert(t[j] == s[j - 1]);
                } else {
                    assert(t[j] == s[j - 1]);
                    assert(s[0].updated_at >= s[j - 1].updated_at);
                }
            }
        }
        if unique_ref_ids(s) && !refs_have_id(s, x.post_id@) {
            assert forall|i: int, j: int|
                0 <= i < j < t.len() implies t[i].post_id@ != t[j].post_id@ by {
                if i >= 1 {
                    assert(t[i] == s[i - 1]);
                    assert(t[j] == s[j - 1]);
                } else {
                    assert(t[j] == s[j - 1]);
                    if t[0].post_id@ == s[j - 1].post_id@ {
                        assert(refs_have_id(s, x.post_id@));
                    }
                }
            }
        }
    } else {
        let rest = s.subrange(1, s.len() as int);
        let tr = insert_desc(rest, x);
        lemma_insert_desc_props(rest, x);
        assert(t =~= seq![s[0]] + tr);
        assert forall|id: Seq<char>| #[trigger] refs_have_id(t, id) == (refs_have_id(s, id)
            || x.post_id@ == id) by {
            if refs_have_id(t, id) {
                let i = choose|i: int| 0 <= i < t.len() && t[i].post_id@ == id;
                if i >= 1 {
                    assert(tr[i - 1].post_id@ == id);
                    assert(refs_have_id(tr, id));
                    if refs_have_id(rest, id) {
                        let l = choose|l: int| 0 <= l < rest.len() && rest[l].post_id@ == id;
                        assert(s[l + 1].post_id@ == id);
                    }
                } else {
                    assert(s[0].post_id@ == id);
                }
            }
            if refs_have_id(s, id) {
                let i = choose|i: int| 0 <= i < s.len() && s[i].post_id@ == id;
                if i == 0 {
                    assert(t[0].post_id@ == id);
                } else {
                    assert(rest[i - 1].post_id@ == id);
                    assert(refs_have_id(rest, id));
                    assert(refs_have_id(tr, id));
                    let l = choose|l: int| 0 <= l < tr.len() && tr[l].post_id@ == id;
                    assert(t[l + 1].post_id@ == id);
                }
            }
            if x.post_id@ == id {
                assert(refs_have_id(tr, id));
                let l = choose|l: int| 0 <= l < tr.len() && tr[l].post_id@ == id;
                assert(t[l + 1].post_id@ == id);
            }
        }
        assert forall|p: PostRef| #[trigger] t.contains(p) == (s.contains(p) || p == x) by {
            if t.contains(p) {
                let i = choose|i: int| 0 <= i < t.len() && t[i] == p;
                if i >= 1 {
                    assert(tr[i - 1] == p);
                    assert(tr.contains(p));
                    if rest.contains(p) {
                        let l = choose|l: int| 0 <= l < rest.len() && rest[l] == p;
                        assert(s[l + 1] == p);
                    }
                } else {
                    assert(s[0] == p);
                }
            }
            if s.contains(p) {
                let i = choose|i: int| 0 <= i < s.len() && s[i] == p;
                if i == 0 {
                    assert(t[0] == p);
                } else {
                    assert(rest[i - 1] == p);
                    assert(tr.contains(p));
                    let l = choose|l: int| 0 <= l < tr.len() && tr[l] == p;
                    assert(t[l + 1] == p);
                }
            }
            if p == x {
                assert(tr.contains(p));
                let l = choose|l: int| 0 <= l < tr.len() && tr[l] == p;
                assert(t[l + 1] == p);
            }
        }
        if sorted_desc(s) {
            assert forall|a: int, b: int|
                0 <= a < b < rest.len() implies rest[a].updated_at >= rest[b].updated_at by {
                assert(rest[a] == s[a + 1]);
                assert(rest[b] == s[b + 1]);
            }
            assert(sorted_desc(tr));
            assert forall|i: int, j: int|
                0 <= i < j < t.len() implies t[i].updated_at >= t[j].updated_at by {
                if i >= 1 {
                    assert(t[i] == tr[i - 1]);
                    assert(t[j] == tr[j - 1]);
                } else {
                    assert(t[j] == tr[j - 1]);
                    // s[0] dominates both the old tail and x
                    assert(tr.contains(tr[j - 1]));
                    if rest.contains(tr[j - 1]) {
                        let l = choose|l: int| 0 <= l < rest.len() && rest[l] == tr[j - 1];
                        assert(s[0].updated_at >= s[l + 1].updated_at);
                    } else {
                        assert(tr[j - 1] == x);
                    }
                }
            }
        }
        if unique_ref_ids(s) && !refs_have_id(s, x.post_id@) {
            assert forall|a: int, b: int|
                0 <= a < b < rest.len() implies rest[a].post_id@ != rest[b].post_id@ by {
                assert(rest[a] == s[a + 1]);
                assert(rest[b] == s[b + 1]);
            }
            assert(!refs_have_id(rest, x.post_id@)) by {
                if refs_have_id(rest, x.post_id@) {
                    let l = choose|l: int| 0 <= l < rest.len() && rest[l].post_id@ == x.post_id@;
                    assert(s[l + 1].post_id@ == x.post_id@);
                }
            }
            assert(unique_ref_ids(tr));
            assert forall|i: int, j: int|
                0 <= i < j < t.len() implies t[i].post_id@ != t[j].post_id@ by {
                if i >= 1 {
                    assert(t[i] == tr[i - 1]);
                    assert(t[j] == tr[j - 1]);
                } else {
                    assert(t[j] == tr[j - 1]);
                    if t[0].post_id@ == tr[j - 1].post_id@ {
                        assert(refs_have_id(tr, s[0].post_id@));
                        if refs_have_id(rest, s[0].post_id@) {
                            let l = choose|l: int|
                                0 <= l < rest.len() && rest[l].post_id@ == s[0].post_id@;
                            assert(s[l + 1].post_id@ == s[0].post_id@);
                        } else {
                            assert(x.post_id@ == s[0].post_id@);
                            assert(refs_have_id(s, x.post_id@));
                        }
                    }
                }
            }
        }
    }
}

pub proof fn lemma_sort_desc_props(s: Seq<PostRef>)
    ensures
        sort_desc(s).len() == s.len(),
        sorted_desc(sort_desc(s)),
        forall|id: Seq<char>| #[trigger] refs_have_id(sort_desc(s), id) == refs_have_id(s, id),
        forall|p: PostRef| #[trigger] sort_desc(s).contains(p) == s.contains(p),
        unique_ref_ids(s) ==> unique_ref_ids(sort_desc(s)),
    decreases s.len(),
{
    if s.len() == 0 {
    } else {
        let sd = s.drop_last();
        let e = s.last();
        lemma_sort_desc_props(sd);
        lemma_insert_desc_props(sort_desc(sd), e);
        assert(s =~= sd.push(e));
        assert forall|id: Seq<char>| #[trigger] refs_have_id(sort_desc(s), id) == refs_have_id(
            s,
            id,
        ) by {
            if refs_have_id(sd, id) {
                let i = choose|i: int| 0 <= i < sd.len() && sd[i].post_id@ == id;
                assert(s[i].post_id@ == id);
            }
            if refs_have_id(s, id) {
                let i = choose|i: int| 0 <= i < s.len() && s[i].post_id@ == id;
                if i < sd.len() {
                    assert(sd[i].post_id@ == id);
                } else {
                    assert(e.post_id@ == id);
                }
            }
        }
        assert forall|p: PostRef| #[trigger] sort_desc(s).contains(p) == s.contains(p) by {
            if sd.contains(p) {
                let i = choose|i: int| 0 <= i < sd.len() && sd[i] == p;
                assert(s[i] == p);
            }
            if s.contains(p) {
                let i = choose|i: int| 0 <= i < s.len() && s[i] == p;
                if i < sd.len() {
                    assert(sd[i] == p);
                } else {
                    assert(e == p);
                }
            }
        }
        if unique_ref_ids(s) {
            assert forall|a: int, b: int|
                0 <= a < b < sd.len() implies sd[a].post_id@ != sd[b].post_id@ by {
                assert(sd[a] == s[a]);
                assert(sd[b] == s[b]);
            }
            assert(!refs_have_id(sd, e.post_id@)) by {
                if refs_have_id(sd, e.post_id@) {
                    let l = choose|l: int| 0 <= l < sd.len() && sd[l].post_id@ == e.post_id@;
                    assert(s[l].post_id@ == s[s.len() - 1].post_id@);
                }
            }
        }
    }
}

/// Insertion at the first strictly-older position realizes `insert_desc`.
proof fn lemma_insert_desc_position(s: Seq<PostRef>, x: PostRef, j: int)
    requires
        0 <= j <= s.len(),
        forall|k: int| 0 <= k < j ==> s[k].updated_at >= x.updated_at,
        j < s.len() ==> s[j].updated_at < x.updated_at,
    ensures
        insert_desc(s, x) == s.insert(j, x),
    decreases s.len(),
{
    if s.len() == 0 {
        assert(insert_desc(s, x) =~= s.insert(0, x));
    } else if x.updated_at > s[0].updated_at {
        assert(j == 0);
        assert(insert_desc(s, x) =~= s.insert(0, x));
    } else {
        assert(j >= 1);
        let rest = s.subrange(1, s.len() as int);
        assert forall|k: int| 0 <= k < j - 1 implies rest[k].updated_at >= x.updated_at by {
            assert(rest[k] == s[k + 1]);
        }
        if j - 1 < rest.len() {
            assert(rest[j - 1] == s[j]);
        }
        lemma_insert_desc_position(rest, x, j - 1);
        assert(seq![s[0]] + rest.insert(j - 1, x) =~= s.insert(j, x));
    }
}

/// Insert a reference into a vector kept in descending order, stably.
fn insert_sorted(acc: &mut Vec<PostRef>, x: PostRef)
    ensures
        final(acc)@ == insert_desc(old(acc)@, x),
{
    let ghost s = acc@;
    let n = acc.len();
    let mut j: usize = 0;
    while j < n && acc[j].updated_at >= x.updated_at
        invariant
            j <= n,
            n == acc@.len(),
            acc@ == s,
            forall|k: int| 0 <= k < j ==> s[k].updated_at >= x.updated_at,
        decreases n - j,
    {
        j = j + 1;
    }
    proof {
        lemma_insert_desc_position(s, x, j as int);
    }
    acc.insert(j, x);
}

/// Sort references descending by `updated_at` (stable insertion sort).
fn sort_refs_desc(items: Vec<PostRef>) -> (r: Vec<PostRef>)
    ensures
        r@ == sort_desc(items@),
{
    let ghost s0 = items@;
    let mut source = items;
    let mut acc: Vec<PostRef> = Vec::new();
    let ghost mut seen: int = 0;
    proof {
        assert(s0.subrange(0, 0) =~= Seq::<PostRef>::empty());
        assert(sort_desc(Seq::<PostRef>::empty()) =~= Seq::<PostRef>::empty());
    }
    while source.len() > 0
        invariant
            seen + source@.len() == s0.len(),
            0 <= seen <= s0.len(),
            source@ == s0.skip(seen),
            acc@ == sort_desc(s0.subrange(0, seen)),
        decreases source@.len(),
    {
        let x = source.remove(0);
        proof {
            assert(x == s0[seen]);
            assert(source@ =~= s0.skip(seen + 1));
            let cur = s0.subrange(0, seen + 1);
            assert(cur.drop_last() =~= s0.subrange(0, seen));
            assert(cur.last() == s0[seen]);
        }
        insert_sorted(&mut acc, x);
        proof {
            seen = seen + 1;
        }
    }
    proof {
        assert(s0.subrange(0, s0.len() as int) =~= s0);
    }
    acc
}


/// Keeping only references outside a batch preserves id uniqueness; every
/// survivor was there and is not superseded.
proof fn lemma_filter_refs(s: Seq<PostRef>, b: Seq<PostRef>)
    requires
        unique_ref_ids(s),
    ensures
        unique_ref_ids(s.filter(ref_id_not_in(b))),
        forall|id: Seq<char>| #[trigger] refs_have_id(s.filter(ref_id_not_in(b)), id)
            ==> refs_have_id(s, id) && !refs_have_id(b, id),
        forall|p: PostRef| #[trigger] s.filter(ref_id_not_in(b)).contains(p) ==> s.contains(p),
    decreases s.len(),
{
    reveal(Seq::filter);
    let t = s.filter(ref_id_not_in(b));
    if s.len() == 0 {
        assert forall|id: Seq<char>| #[trigger] refs_have_id(t, id) implies refs_have_id(s, id)
            && !refs_have_id(b, id) by {}
    } else {
        let sd = s.drop_last();
        let e = s.last();
        assert forall|a: int, c: int| 0 <= a < c < sd.len() implies sd[a].post_id@
            != sd[c].post_id@ by {
            assert(sd[a] == s[a]);
            assert(sd[c] == s[c]);
        }
        lemma_filter_refs(sd, b);
        let td = sd.filter(ref_id_not_in(b));
        if !refs_have_id(b, e.post_id@) {
            assert(t == td.push(e));
            assert forall|id: Seq<char>| #[trigger] refs_have_id(t, id) implies refs_have_id(
                s,
                id,
            ) && !refs_have_id(b, id) by {
                let i = choose|i: int| 0 <= i < t.len() && t[i].post_id@ == id;
                if i < td.len() {
                    assert(td[i].post_id@ == id);
                    assert(refs_have_id(td, id));
                    let l = choose|l: int| 0 <= l < sd.len() && sd[l].post_id@ == id;
                    assert(s[l].post_id@ == id);
                } else {
                    assert(t[i] == e);
                    assert(s[s.len() - 1].post_id@ == id);
                }
            }
            assert forall|a: int, c: int| 0 <= a < c < t.len() implies t[a].post_id@
                != t[c].post_id@ by {
                if c < td.len() {
                    assert(td[a].post_id@ != td[c].post_id@);
                } else {
                    assert(t[c] == e);
                    assert(t[a] == td[a]);
                    assert(refs_have_id(td, td[a].post_id@));
                    if td[a].post_id@ == e.post_id@ {
                        let l = choose|l: int| 0 <= l < sd.len() && sd[l].post_id@ == e.post_id@;
                        assert(s[l].post_id@ == s[s.len() - 1].post_id@);
                    }
                }
            }
            assert forall|p: PostRef| #[trigger] t.contains(p) implies s.contains(p) by {
                let i = choose|i: int| 0 <= i < t.len() && t[i] == p;
                if i < td.len() {
                    assert(td.contains(p));
                    let l = choose|l: int| 0 <= l < sd.len() && sd[l] == p;
                    assert(s[l] == p);
                } else {
                    assert(s[s.len() - 1] == p);
                }
            }
        } else {
            assert(t == td);
            assert forall|id: Seq<char>| #[trigger] refs_have_id(t, id) implies refs_have_id(
                s,
                id,
            ) && !refs_have_id(b, id) by {
                let l = choose|l: int| 0 <= l < sd.len() && sd[l].post_id@ == id;
                assert(s[l].post_id@ == id);
            }
            assert forall|p: PostRef| #[trigger] t.contains(p) implies s.contains(p) by {
                let l = choose|l: int| 0 <= l < sd.len() && sd[l] == p;
                assert(s[l] == p);
            }
        }
    }
}

/// The timeline keeps at most `TIMELINE_MAX_POSTS` references: the front
/// of the sorted merge.
pub open spec fn capped(s: Seq<PostRef>) -> Seq<PostRef> {
    if s.len() <= TIMELINE_MAX_POSTS as int {
        s
    } else {
        s.take(TIMELINE_MAX_POSTS as int)
    }
}

/// Timeline state.
pub struct UserTimeline {
    pub user_id: String,
    pub posts: Vec<PostRef>,
    pub created_at: u64,
    pub updated_at: u64,
}

impl UserTimeline {
    /// One reference per post, sorted by descending update time, capped.
    pub open spec fn wf(&self) -> bool {
        &&& unique_ref_ids(self.posts@)
        &&& sorted_desc(self.posts@)
        &&& self.posts@.len() <= TIMELINE_MAX_POSTS as int
    }

    pub fn new(user_id: String, now: u64) -> (r: UserTimeline)
        ensures
            r.user_id == user_id,
            r.posts@.len() == 0,
            r.created_at == now,
            r.updated_at == now,
            r.wf(),
    {
        UserTimeline { user_id, posts: Vec::new(), created_at: now, updated_at: now }
    }

    pub fn contains_post(&self, post_id: &str) -> (r: bool)
        ensures
            r == refs_have_id(self.posts@, post_id@),
    {
        refs_contain(&self.posts, post_id)
    }

    /// Merge a batch: drop the old references the batch supersedes, append
    /// the batch, re-sort descending by update time, cap the length.
    pub fn posts_updated(&mut self, batch: Vec<PostRef>, now: u64)
        requires
            old(self).wf(),
            unique_ref_ids(batch@),
        ensures
            final(self).wf(),
            final(self).posts@ == capped(sort_desc(merged_posts(old(self).posts@, batch@))),
            final(self).updated_at == now,
            final(self).user_id == old(self).user_id,
            final(self).created_at == old(self).created_at,
    {
        let ghost p0 = self.posts@;
        let ghost b = batch@;
        let mut source: Vec<PostRef> = Vec::new();
        core::mem::swap(&mut source, &mut self.posts);
        let mut kept: Vec<PostRef> = Vec::new();
        let ghost mut seen: int = 0;
        proof {
            reveal(Seq::filter);
            assert(p0.subrange(0, 0) =~= Seq::<PostRef>::empty());
            assert(Seq::<PostRef>::empty().filter(ref_id_not_in(b)) =~= Seq::<PostRef>::empty());
        }
        while source.len() > 0
            invariant
                seen + source@.len() == p0.len(),
                0 <= seen <= p0.len(),
                source@ == p0.skip(seen),
                batch@ == b,
                kept@ == p0.subrange(0, seen).filter(ref_id_not_in(b)),
            decreases source@.len(),
        {
            let p = source.remove(0);
            proof {
                reveal(Seq::filter);
                assert(p == p0[seen]);
                assert(source@ =~= p0.skip(seen + 1));
                let pre = p0.subrange(0, seen);
                let cur = p0.subrange(0, seen + 1);
                assert(cur.drop_last() =~= pre);
                assert(cur.last() == p0[seen]);
            }
            if !refs_contain(&batch, p.post_id.as_str()) {
                kept.push(p);
            }
            proof {
                seen = seen + 1;
            }
        }
        proof {
            assert(p0.subrange(0, p0.len() as int) =~= p0);
        }
        let mut incoming = batch;
        let ghost mut taken: int = 0;
        while incoming.len() > 0
            invariant
                taken + incoming@.len() == b.len(),
                0 <= taken <= b.len(),
                incoming@ == b.skip(taken),
                kept@ == p0.filter(ref_id_not_in(b)) + b.subrange(0, taken),
            decreases incoming@.len(),
        {
            let p = incoming.remove(0);
            proof {
                assert(p == b[taken]);
                assert(incoming@ =~= b.skip(taken + 1));
            }
            kept.push(p);
            proof {
                assert(kept@ =~= p0.filter(ref_id_not_in(b)) + b.subrange(0, taken + 1));
                taken = taken + 1;
            }
        }
        proof {
            assert(b.subrange(0, b.len() as int) =~= b);
            assert(kept@ == merged_posts(p0, b));
        }
        let mut sorted = sort_refs_desc(kept);
        if sorted.len() > TIMELINE_MAX_POSTS {
            sorted.truncate(TIMELINE_MAX_POSTS);
        }
        self.posts = sorted;
        self.updated_at = now;
        proof {
            lemma_filter_refs(p0, b);
            let merged = merged_posts(p0, b);
            assert(unique_ref_ids(merged)) by {
                let f = p0.filter(ref_id_not_in(b));
                assert forall|i: int, j: int|
                    0 <= i < j < merged.len() implies merged[i].post_id@ != merged[j].post_id@ by {
                    if j < f.len() {
                        assert(merged[i] == f[i]);
                        assert(merged[j] == f[j]);
                    } else if i >= f.len() {
                        assert(merged[i] == b[i - f.len()]);
                        assert(merged[j] == b[j - f.len()]);
                    } else {
                        assert(merged[i] == f[i]);
                        assert(merged[j] == b[j - f.len()]);
                        assert(refs_have_id(f, f[i].post_id@));
                        if f[i].post_id@ == b[j - f.len()].post_id@ {
                            assert(refs_have_id(b, f[i].post_id@));
                        }
                    }
                }
            }
            lemma_sort_desc_props(merged);
            let srt = sort_desc(merged);
            assert forall|i: int, j: int|
                0 <= i < j < capped(srt).len() implies capped(srt)[i].updated_at >= capped(
                srt,
            )[j].updated_at by {
                assert(capped(srt)[i] == srt[i]);
                assert(capped(srt)[j] == srt[j]);
            }
            assert forall|i: int, j: int|
                0 <= i < j < capped(srt).len() implies capped(srt)[i].post_id@ != capped(
                srt,
            )[j].post_id@ by {
                assert(capped(srt)[i] == srt[i]);
                assert(capped(srt)[j] == srt[j]);
            }
        }
    }
}

/// Whether any reference in the list points at the given post.
fn refs_contain(refs: &Vec<PostRef>, post_id: &str) -> (r: bool)
    ensures
        r == refs_have_id(refs@, post_id@),
{
    let n = refs.len();
    let mut i: usize = 0;
    while i < n
        invariant
            i <= n,
            n == refs@.len(),
            forall|j: int| 0 <= j < i ==> refs@[j].post_id@ != post_id@,
        decreases n - i,
    {
        if crate::strutil::str_eq(refs[i].post_id.as_str(), post_id) {
            return true;
        }
        i = i + 1;
    }
    false
}


/// Holds of references updated at or after `since`.
pub open spec fn updated_since(since: u64) -> spec_fn(PostRef) -> bool {
    |p: PostRef| p.updated_at >= since
}

impl UserTimeline {
    /// Copies of the references updated at or after `since`, in timeline
    /// order.
    pub fn updates_since(&self, since: u64) -> (r: Vec<PostRef>)
        ensures
            r@.len() == self.posts@.filter(updated_since(since)).len(),
            forall|i: int|
                0 <= i < r@.len() ==> ref_like(
                    #[trigger] r@[i],
                    self.posts@.filter(updated_since(since))[i],
                ),
    {
        let ghost s0 = self.posts@;
        let n = self.posts.len();
        let mut r: Vec<PostRef> = Vec::new();
        let mut i: usize = 0;
        proof {
            reveal(Seq::filter);
            assert(s0.subrange(0, 0) =~= Seq::<PostRef>::empty());
            assert(Seq::<PostRef>::empty().filter(updated_since(since))
                =~= Seq::<PostRef>::empty());
        }
        while i < n
            invariant
                i <= n,
                n == s0.len(),
                s0 == self.posts@,
                r@.len() == s0.subrange(0, i as int).filter(updated_since(since)).len(),
                forall|j: int|
                    0 <= j < r@.len() ==> ref_like(
                        #[trigger] r@[j],
                        s0.subrange(0, i as int).filter(updated_since(since))[j],
                    ),
            decreases n - i,
        {
            proof {
                reveal(Seq::filter);
                let pre = s0.subrange(0, i as int);
                let cur = s0.subrange(0, i + 1);
                assert(cur.drop_last() =~= pre);
                assert(cur.last() == s0[i as int]);
            }
            let p = &self.posts[i];
            if p.updated_at >= since {
                r.push(p.duplicate());
            }
            i = i + 1;
        }
        proof {
            assert(s0.subrange(0, n as int) =~= s0);
        }
        r
    }
}

/// What a timeline's "updates since" read hands back.
#[derive(Debug)]
pub struct UserTimelineUpdates {
    pub user_id: String,
    pub posts: Vec<PostRef>,
}

/// Durable UserTimeline actor: an optional `UserTimeline` state created
/// lazily by the first inbound batch.
pub struct UserTimelineActor {
    pub id: String,
    pub state: Option<UserTimeline>,
}

impl UserTimelineActor {
    pub open spec fn wf(&self) -> bool {
        match self.state {
            Some(t) => t.wf() && t.user_id@ == self.id@,
            None => true,
        }
    }

    pub fn new(id: String) -> (r: UserTimelineActor)
        ensures
            r.id == id,
            r.state is None,
            r.wf(),
    {
        UserTimelineActor { id, state: None }
    }

    pub fn get_timeline(&self) -> (r: &Option<UserTimeline>)
        ensures
            r == &self.state,
    {
        &self.state
    }

    /// Apply one inbound batch, creating the timeline on first touch.
    pub fn posts_updated(&mut self, batch: Vec<PostRef>, now: u64)
        requires
            old(self).wf(),
            unique_ref_ids(batch@),
        ensures
            final(self).wf(),
            final(self).id == old(self).id,
            final(self).state is Some,
            final(self).state->0.posts@ == capped(
                sort_desc(
                    merged_posts(
                        (match old(self).state {
                            Some(t) => t.posts@,
                            None => Seq::<PostRef>::empty(),
                        }),
                        batch@,
                    ),
                ),
            ),
            final(self).state->0.updated_at == now,
            final(self).state->0.user_id@ == old(self).id@,
    {
        if self.state.is_none() {
            self.state = Some(UserTimeline::new(self.id.clone(), now));
        }
        match &mut self.state {
            Some(t) => {
                t.posts_updated(batch, now);
            },
            None => {
                proof {
                    assert(false);
                }
            },
        }
    }

    /// References updated at or after `since`; `None` when the timeline
    /// was never materialized.
    pub fn get_updates(&self, updates_since: u64) -> (r: Option<UserTimelineUpdates>)
        ensures
            r is Some <==> self.state is Some,
            r is Some ==> ({
                let t = self.state->0;
                let u = r->0;
                &&& u.user_id@ == t.user_id@
                &&& u.posts@.len() == t.posts@.filter(updated_since(updates_since)).len()
                &&& forall|i: int|
                    0 <= i < u.posts@.len() ==> ref_like(
                        #[trigger] u.posts@[i],
                        t.posts@.filter(updated_since(updates_since))[i],
                    )
            }),
    {
        match &self.state {
            Some(t) => {
                let posts = t.updates_since(updates_since);
                Some(UserTimelineUpdates { user_id: t.user_id.clone(), posts })
            },
            None => None,
        }
    }
}

/// The timeline merge keeps one reference per post, sorted by descending
/// update time, never over the cap; when the merge exceeds the cap, every
/// retained reference is at least as recently updated as every dropped
/// one.
pub proof fn lemma_timeline_merge_bounds(old_posts: Seq<PostRef>, batch: Seq<PostRef>)
    requires
        unique_ref_ids(old_posts),
        unique_ref_ids(batch),
    ensures
        ({
            let merged = merged_posts(old_posts, batch);
            let full = sort_desc(merged);
            let r = capped(full);
            &&& unique_ref_ids(r)
            &&& sorted_desc(r)
            &&& r.len() <= TIMELINE_MAX_POSTS as int
            &&& r.len() == (if merged.len() <= TIMELINE_MAX_POSTS as int {
                merged.len() as int
            } else {
                TIMELINE_MAX_POSTS as int
            })
            &&& forall|i: int| 0 <= i < r.len() ==> merged.contains(#[trigger] r[i])
            &&& forall|i: int, j: int|
                0 <= i < r.len() && r.len() <= j < full.len() ==> (#[trigger] r[i]).updated_at
                    >= (#[trigger] full[j]).updated_at
        }),
{
    let merged = merged_posts(old_posts, batch);
    let full = sort_desc(merged);
    let r = capped(full);
    lemma_filter_refs(old_posts, batch);
    assert(unique_ref_ids(merged)) by {
        let f = old_posts.filter(ref_id_not_in(batch));
        assert forall|i: int, j: int|
            0 <= i < j < merged.len() implies merged[i].post_id@ != merged[j].post_id@ by {
            if j < f.len() {
                assert(merged[i] == f[i]);
                assert(merged[j] == f[j]);
            } else if i >= f.len() {
                assert(merged[i] == batch[i - f.len()]);
                assert(merged[j] == batch[j - f.len()]);
            } else {
                assert(merged[i] == f[i]);
                assert(merged[j] == batch[j - f.len()]);
                assert(refs_have_id(f, f[i].post_id@));
                if f[i].post_id@ == batch[j - f.len()].post_id@ {
                    assert(refs_have_id(batch, f[i].post_id@));
                }
            }
        }
    }
    lemma_sort_desc_props(merged);
    assert forall|i: int, j: int| 0 <= i < j < r.len() implies (#[trigger] r[i]).updated_at
        >= (#[trigger] r[j]).updated_at by {
        assert(r[i] == full[i]);
        assert(r[j] == full[j]);
    }
    assert forall|i: int, j: int| 0 <= i < j < r.len() implies (#[trigger] r[i]).post_id@
        != (#[trigger] r[j]).post_id@ by {
        assert(r[i] == full[i]);
        assert(r[j] == full[j]);
    }
    assert forall|i: int| 0 <= i < r.len() implies merged.contains(#[trigger] r[i]) by {
        assert(r[i] == full[i]);
        assert(full.contains(full[i]));
    }
    assert forall|i: int, j: int|
        0 <= i < r.len() && r.len() <= j < full.len() implies (#[trigger] r[i]).updated_at >= (
    #[trigger] full[j]).updated_at by {
        assert(r[i] == full[i]);
    }
}


/// The provenance tag of a reference, as printable text.
pub open spec fn tag_label(pr: PostRef) -> Option<Seq<char>> {
    match pr.created_by_connection_type {
        Some(t) => Some(t.label_spec()),
        None => None,
    }
}

/// One `field:value` filter as it applies to a reference alone: the
/// provenance tag and the creator are settled here, the content only on
/// the full post.
pub open spec fn post_ref_filter_ok(field: Seq<char>, value: Seq<char>, pr: PostRef) -> bool {
    if field == "connection-type"@ || field == "connectiontype"@ {
        spec_opt_text_exact_matches(tag_label(pr), value)
    } else if field == "created-by"@ || field == "createdby"@ {
        crate::query::spec_text_exact_matches(pr.created_by@, value)
    } else if field == "content"@ {
        true
    } else {
        false
    }
}

/// Every filter passes on the reference (terms wait for the full post).
pub open spec fn spec_post_ref_matches(q: Query, pr: PostRef) -> bool {
    forall|i: int|
        0 <= i < q.filters_view().len() ==> #[trigger] post_ref_filter_ok(
            q.filters_view()[i].0,
            q.filters_view()[i].1,
            pr,
        )
}

/// Evaluates a parsed query against timeline references and full posts.
pub struct PostQueryMatcher {
    query: Query,
}

impl PostQueryMatcher {
    pub closed spec fn query_spec(&self) -> Query {
        self.query
    }

    pub fn new(query: &str) -> (r: PostQueryMatcher)
        ensures
            r.query_spec().terms_view() == crate::query::terms_of(
                crate::query::tokens_of(query@),
            ),
            r.query_spec().filters_view() == crate::query::filters_of(
                crate::query::tokens_of(query@),
            ),
    {
        PostQueryMatcher { query: Query::new(query) }
    }

    /// Whether the reference alone already passes the query's filters.
    pub fn matches_post_ref(&self, post_ref: PostRef) -> (r: bool)
        ensures
            r == spec_post_ref_matches(self.query_spec(), post_ref),
    {
        let nf = self.query.field_filters.len();
        let mut i: usize = 0;
        while i < nf
            invariant
                i <= nf,
                nf == self.query.field_filters@.len(),
                forall|j: int|
                    0 <= j < i ==> #[trigger] post_ref_filter_ok(
                        self.query.filters_view()[j].0,
                        self.query.filters_view()[j].1,
                        post_ref,
                    ),
            decreases nf - i,
        {
            let field = &self.query.field_filters[i].0;
            let value = &self.query.field_filters[i].1;
            let ok: bool = if str_eq(field.as_str(), "connection-type") || str_eq(
                field.as_str(),
                "connectiontype",
            ) {
                let label = match &post_ref.created_by_connection_type {
                    Some(t) => Some(t.label()),
                    None => None,
                };
                opt_text_exact_matches(label, value.as_str())
            } else if str_eq(field.as_str(), "created-by") || str_eq(field.as_str(), "createdby") {
                text_exact_matches(post_ref.created_by.as_str(), value.as_str())
            } else if str_eq(field.as_str(), "content") {
                true
            } else {
                false
            };
            if !ok {
                proof {
                    assert(!post_ref_filter_ok(
                        self.query.filters_view()[i as int].0,
                        self.query.filters_view()[i as int].1,
                        post_ref,
                    ));
                }
                return false;
            }
            i = i + 1;
        }
        true
    }

    /// Whether the full post matches the query.
    pub fn matches_post(&self, post: Post) -> (r: bool)
        ensures
            r == spec_post_matches(self.query_spec(), post),
    {
        let nf = self.query.field_filters.len();
        let mut i: usize = 0;
        while i < nf
            invariant
                i <= nf,
                nf == self.query.field_filters@.len(),
                forall|j: int|
                    0 <= j < i ==> #[trigger] post_filter_ok(
                        self.query.filters_view()[j].0,
                        self.query.filters_view()[j].1,
                        post,
                    ),
            decreases nf - i,
        {
            let field = &self.query.field_filters[i].0;
            let value = &self.query.field_filters[i].1;
            let ok: bool = if str_eq(field.as_str(), "created-by") || str_eq(
                field.as_str(),
                "createdby",
            ) {
                text_exact_matches(post.created_by.as_str(), value.as_str())
            } else if str_eq(field.as_str(), "content") {
                text_matches(post.content.as_str(), value.as_str())
            } else if str_eq(field.as_str(), "connection-type") || str_eq(
                field.as_str(),
                "connectiontype",
            ) {
                true
            } else {
                false
            };
            if !ok {
                proof {
                    assert(!post_filter_ok(
                        self.query.filters_view()[i as int].0,
                        self.query.filters_view()[i as int].1,
                        post,
                    ));
                }
                return false;
            }
            i = i + 1;
        }
        let nt = self.query.terms.len();
        let mut k: usize = 0;
        while k < nt
            invariant
                k <= nt,
                nt == self.query.terms@.len(),
                i == self.query.field_filters@.len(),
                forall|j: int|
                    0 <= j < i ==> #[trigger] post_filter_ok(
                        self.query.filters_view()[j].0,
                        self.query.filters_view()[j].1,
                        post,
                    ),
                forall|j: int|
                    0 <= j < k ==> #[trigger] post_term_ok(self.query.terms_view()[j], post),
            decreases nt - k,
        {
            let term = &self.query.terms[k];
            if !text_matches(post.content.as_str(), term.as_str()) {
                proof {
                    assert(!post_term_ok(self.query.terms_view()[k as int], post));
                }
                return false;
            }
            k = k + 1;
        }
        true
    }
}

} // verus!
