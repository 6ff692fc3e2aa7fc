//! Post entity: content, a like map, and a tree of comments stored as an
//! id-keyed collection with parent pointers.  Comments always appear after
//! their parent, so one forward scan finds a whole subtree; removing a
//! comment removes exactly its subtree.

use vstd::prelude::*;
use vstd::string::*;
use crate::common::LikeType;
use crate::idmap::{
    has_id, has_key, key_index, lemma_has_key_exists, lemma_key_index_props, val_of, without_keys,
    IdEntry, IdMap, IdSet,
};
use crate::query::{
    spec_text_exact_matches, spec_text_matches, text_exact_matches, text_matches, Query,
};
use crate::strutil::str_eq;

verus! {

/// Most comments a post may hold.
pub const COMMENTS_MAX_COUNT: usize = 2000;

/// One comment; `parent_comment_id` is the tree edge.
pub struct Comment {
    pub comment_id: String,
    pub parent_comment_id: Option<String>,
    pub content: String,
    pub likes: IdMap<LikeType>,
    pub created_by: String,
    pub created_at: u64,
    pub updated_at: u64,
}

impl Comment {
    pub open spec fn wf(&self) -> bool {
        self.likes.wf()
    }

    pub fn new(
        comment_id: String,
        user_id: String,
        content: String,
        parent_comment_id: Option<String>,
        now: u64,
    ) -> (r: Comment)
        ensures
            r.comment_id == comment_id,
            r.parent_comment_id == parent_comment_id,
            r.content == content,
            r.created_by == user_id,
            r.likes@.len() == 0,
            r.created_at == now,
            r.updated_at == now,
            r.wf(),
    {
        Comment {
            comment_id,
            parent_comment_id,
            content,
            likes: IdMap::new(),
            created_by: user_id,
            created_at: now,
            updated_at: now,
        }
    }
}

/// The view of a comment's parent pointer.
pub open spec fn parent_of(c: Comment) -> Option<Seq<char>> {
    match c.parent_comment_id {
        Some(p) => Some(p@),
        None => None,
    }
}

/// The comment at position `i` names no parent or one stored earlier.
pub open spec fn parent_before(s: Seq<IdEntry<Comment>>, i: int) -> bool {
    match parent_of(s[i].val) {
        Some(p) => exists|j: int| 0 <= j < i && s[j].key@ == p,
        None => true,
    }
}

/// Well-formed comment store: unique keys that agree with the comments'
/// own ids, well-formed like maps, parents stored before their children.
pub open spec fn comments_wf(s: Seq<IdEntry<Comment>>) -> bool {
    &&& crate::idmap::unique_keys(s)
    &&& forall|i: int|
        0 <= i < s.len() ==> (#[trigger] s[i]).key@ == s[i].val.comment_id@ && s[i].val.wf()
            && parent_before(s, i)
}

/// The ids doomed by removing `root`, after scanning the first `n` stored
/// comments: `root` itself, plus every scanned comment whose parent was
/// already doomed.  Because parents come before children, scanning once is
/// enough to catch the whole subtree.
pub open spec fn doomed_upto(s: Seq<IdEntry<Comment>>, root: Seq<char>, n: int) -> Set<Seq<char>>
    decreases n,
{
    if n <= 0 {
        Set::empty().insert(root)
    } else {
        let prev = doomed_upto(s, root, n - 1);
        match parent_of(s[n - 1].val) {
            Some(p) => if prev.contains(p) {
                prev.insert(s[n - 1].key@)
            } else {
                prev
            },
            None => prev,
        }
    }
}

/// The subtree of `root`: all ids removed by removing `root`.
pub open spec fn doomed(s: Seq<IdEntry<Comment>>, root: Seq<char>) -> Set<Seq<char>> {
    doomed_upto(s, root, s.len() as int)
}

/// Scanning further only grows the doomed set.
pub proof fn lemma_doomed_monotone(s: Seq<IdEntry<Comment>>, root: Seq<char>, m: int, n: int)
    requires
        m <= n,
    ensures
        forall|x: Seq<char>| #[trigger] doomed_upto(s, root, m).contains(x) ==> doomed_upto(
            s,
            root,
            n,
        ).contains(x),
    decreases n - m,
{
    if m < n {
        lemma_doomed_monotone(s, root, m, n - 1);
    }
}

/// A doomed id is the root or a stored comment whose parent is doomed.
pub proof fn lemma_doomed_sound(s: Seq<IdEntry<Comment>>, root: Seq<char>, n: int, x: Seq<char>)
    requires
        0 <= n <= s.len(),
        doomed_upto(s, root, n).contains(x),
    ensures
        x == root || exists|i: int|
            0 <= i < n && (#[trigger] s[i]).key@ == x && parent_of(s[i].val) is Some
                && doomed_upto(s, root, n).contains(parent_of(s[i].val)->0),
    decreases n,
{
    if n > 0 {
        let prev = doomed_upto(s, root, n - 1);
        if prev.contains(x) {
            lemma_doomed_sound(s, root, n - 1, x);
            lemma_doomed_monotone(s, root, n - 1, n);
        } else {
            assert(s[n - 1].key@ == x);
            lemma_doomed_monotone(s, root, n - 1, n);
        }
    }
}

/// A doomed id whose entry sits at position `i` is already doomed right
/// after that entry is scanned (keys unique).
pub proof fn lemma_doomed_at_index(s: Seq<IdEntry<Comment>>, root: Seq<char>, n: int, i: int)
    requires
        crate::idmap::unique_keys(s),
        0 <= i < s.len(),
        i + 1 <= n <= s.len(),
        doomed_upto(s, root, n).contains(s[i].key@),
    ensures
        doomed_upto(s, root, i + 1).contains(s[i].key@),
    decreases n,
{
    if n > i + 1 {
        let prev = doomed_upto(s, root, n - 1);
        if prev.contains(s[i].key@) {
            lemma_doomed_at_index(s, root, n - 1, i);
        } else {
            // it became doomed at step n, so it is the key of entry n-1,
            // which contradicts key uniqueness
            assert(s[n - 1].key@ == s[i].key@);
        }
    }
}

/// Completeness: a stored comment whose parent is doomed is doomed itself.
pub proof fn lemma_doomed_closed(s: Seq<IdEntry<Comment>>, root: Seq<char>, i: int)
    requires
        comments_wf(s),
        0 <= i < s.len(),
        parent_of(s[i].val) is Some,
        doomed(s, root).contains(parent_of(s[i].val)->0),
    ensures
        doomed(s, root).contains(s[i].key@),
{
    let p = parent_of(s[i].val)->0;
    lemma_doomed_sound(s, root, s.len() as int, p);
    if p == root {
        // the parent is the root itself: it is doomed from step 0 on
        assert(doomed_upto(s, root, 0).contains(p));
        lemma_doomed_monotone(s, root, 0, i);
        assert(doomed_upto(s, root, i).contains(p));
    } else {
        let j = choose|j: int|
            0 <= j < s.len() && (#[trigger] s[j]).key@ == p && parent_of(s[j].val) is Some
                && doomed(s, root).contains(parent_of(s[j].val)->0);
        assert(parent_before(s, i));
        let jb = choose|jb: int| 0 <= jb < i && s[jb].key@ == p;
        lemma_doomed_at_index(s, root, s.len() as int, jb);
        assert(doomed_upto(s, root, jb + 1).contains(p));
        lemma_doomed_monotone(s, root, jb + 1, i);
        assert(doomed_upto(s, root, i).contains(p));
    }
    // at step i + 1 the entry's key joins
    assert(doomed_upto(s, root, i + 1).contains(s[i].key@));
    lemma_doomed_monotone(s, root, i + 1, s.len() as int);
}

/// Post state.
pub struct Post {
    pub post_id: String,
    pub content: String,
    pub created_by: String,
    pub likes: IdMap<LikeType>,
    pub comments: IdMap<Comment>,
    pub created_at: u64,
    pub updated_at: u64,
}

impl Post {
    pub open spec fn wf(&self) -> bool {
        &&& self.likes.wf()
        &&& comments_wf(self.comments@)
    }

    pub fn new(post_id: String, now: u64) -> (r: Post)
        ensures
            r.post_id == post_id,
            r.content@ == Seq::<char>::empty(),
            r.created_by@ == Seq::<char>::empty(),
            r.likes@.len() == 0,
            r.comments@.len() == 0,
            r.created_at == now,
            r.updated_at == now,
            r.wf(),
    {
        Post {
            post_id,
            content: String::new(),
            created_by: String::new(),
            likes: IdMap::new(),
            comments: IdMap::new(),
            created_at: now,
            updated_at: now,
        }
    }

    /// Upsert a like; reports whether a previous value existed.  Always
    /// refreshes `updated_at`.
    pub fn set_like(&mut self, user_id: String, like_type: LikeType, now: u64) -> (r: bool)
        requires
            old(self).wf(),
        ensures
            final(self).wf(),
            r == has_key(old(self).likes@, user_id@),
            has_key(final(self).likes@, user_id@),
            val_of(final(self).likes@, user_id@) == like_type,
            forall|x: Seq<char>|
                x != user_id@ ==> #[trigger] has_key(final(self).likes@, x) == has_key(
                    old(self).likes@,
                    x,
                ),
            forall|x: Seq<char>|
                x != user_id@ && has_key(old(self).likes@, x) ==> #[trigger] val_of(
                    final(self).likes@,
                    x,
                ) == val_of(old(self).likes@, x),
            final(self).likes@.len() == old(self).likes@.len() + (if r {
                0int
            } else {
                1int
            }),
            final(self).updated_at == now,
            final(self).post_id == old(self).post_id,
            final(self).content == old(self).content,
            final(self).created_by == old(self).created_by,
            final(self).comments@ == old(self).comments@,
            final(self).created_at == old(self).created_at,
    {
        let r = self.likes.insert(user_id, like_type);
        self.updated_at = now;
        r
    }

    /// Delete a like; refreshes `updated_at` only when one was there.
    pub fn remove_like(&mut self, user_id: String, now: u64) -> (r: bool)
        requires
            old(self).wf(),
        ensures
            final(self).wf(),
            r == has_key(old(self).likes@, user_id@),
            !has_key(final(self).likes@, user_id@),
            forall|x: Seq<char>|
                x != user_id@ ==> #[trigger] has_key(final(self).likes@, x) == has_key(
                    old(self).likes@,
                    x,
                ),
            forall|x: Seq<char>|
                x != user_id@ && has_key(old(self).likes@, x) ==> #[trigger] val_of(
                    final(self).likes@,
                    x,
                ) == val_of(old(self).likes@, x),
            final(self).likes@.len() == old(self).likes@.len() - (if r {
                1int
            } else {
                0int
            }),
            r ==> final(self).updated_at == now,
            !r ==> final(self).updated_at == old(self).updated_at,
            final(self).post_id == old(self).post_id,
            final(self).content == old(self).content,
            final(self).created_by == old(self).created_by,
            final(self).comments@ == old(self).comments@,
            final(self).created_at == old(self).created_at,
    {
        let r = self.likes.remove(user_id.as_str());
        if r {
            self.updated_at = now;
        }
        r
    }

    /// Append a comment under an existing parent (or at the root).  Fails
    /// when the named parent is unknown; refuses a comment id already in
    /// use, which a freshly minted id never is.
    pub fn add_comment(
        &mut self,
        user_id: String,
        content: String,
        parent_comment_id: Option<String>,
        comment_id: String,
        now: u64,
    ) -> (r: Result<String, String>)
        requires
            old(self).wf(),
        ensures
            final(self).wf(),
            (match parent_comment_id {
                Some(ref p) => !has_key(old(self).comments@, p@),
                None => false,
            }) ==> r is Err && r->Err_0@ == "Parent comment not found"@ && *final(self) == *old(self),
            !(match parent_comment_id {
                Some(ref p) => !has_key(old(self).comments@, p@),
                None => false,
            }) && has_key(old(self).comments@, comment_id@) ==> r is Err && r->Err_0@
                == "Comment already exists"@ && *final(self) == *old(self),
            !(match parent_comment_id {
                Some(ref p) => !has_key(old(self).comments@, p@),
                None => false,
            }) && !has_key(old(self).comments@, comment_id@) ==> r is Ok && r->Ok_0@ == comment_id@
                && ({
                let c = final(self).comments@.last().val;
                &&& final(self).comments@ == old(self).comments@.push(
                    final(self).comments@.last(),
                )
                &&& final(self).comments@.last().key@ == comment_id@
                &&& c.comment_id@ == comment_id@
                &&& parent_of(c) == (match parent_comment_id {
                    Some(ref p) => Some(p@),
                    None => None::<Seq<char>>,
                })
                &&& c.content == content
                &&& c.created_by == user_id
                &&& c.likes@.len() == 0
                &&& c.created_at == now
                &&& c.updated_at == now
                &&& final(self).updated_at == now
                &&& final(self).comments@.len() == old(self).comments@.len() + 1
                &&& forall|x: Seq<char>|
                    x != comment_id@ ==> #[trigger] has_key(final(self).comments@, x) == has_key(
                        old(self).comments@,
                        x,
                    )
                &&& forall|x: Seq<char>|
                    x != comment_id@ && has_key(old(self).comments@, x) ==> #[trigger] val_of(
                        final(self).comments@,
                        x,
                    ) == val_of(old(self).comments@, x)
                &&& final(self).post_id == old(self).post_id
                &&& final(self).content == old(self).content
                &&& final(self).created_by == old(self).created_by
                &&& final(self).likes@ == old(self).likes@
                &&& final(self).created_at == old(self).created_at
            }),
    {
        let ghost s0 = self.comments@;
        if let Some(ref p) = parent_comment_id {
            if !self.comments.contains_key(p.as_str()) {
                return Err(String::from_str("Parent comment not found"));
            }
        }
        if self.comments.contains_key(comment_id.as_str()) {
            return Err(String::from_str("Comment already exists"));
        }
        let id_copy = comment_id.clone();
        let ghost parent_view = (match parent_comment_id {
            Some(ref p) => Some(p@),
            None => None::<Seq<char>>,
        });
        let comment = Comment::new(comment_id.clone(), user_id, content, parent_comment_id, now);
        self.comments.insert(comment_id, comment);
        self.updated_at = now;
        proof {
            let s1 = self.comments@;
            assert(s1 == s0.push(s1.last()));
            assert forall|i: int|
                0 <= i < s1.len() implies (#[trigger] s1[i]).key@ == s1[i].val.comment_id@
                && s1[i].val.wf() && parent_before(s1, i) by {
                if i < s0.len() {
                    assert(s1[i] == s0[i]);
                    assert(parent_before(s0, i));
                    if parent_of(s0[i].val) is Some {
                        let j = choose|j: int|
                            0 <= j < i && s0[j].key@ == parent_of(s0[i].val)->0;
                        assert(s1[j] == s0[j]);
                    }
                } else {
                    if parent_view is Some {
                        lemma_key_index_props(s0, parent_view->0);
                        let j = key_index(s0, parent_view->0);
                        assert(s1[j] == s0[j]);
                    }
                }
            }
        }
        Ok(id_copy)
    }

    /// Remove a comment and, transitively, every comment under it; nothing
    /// else moves.  Fails when the comment is unknown.
    pub fn remove_comment(&mut self, comment_id: String, now: u64) -> (r: Result<(), String>)
        requires
            old(self).wf(),
        ensures
            final(self).wf(),
            !has_key(old(self).comments@, comment_id@) ==> r is Err && r->Err_0@
                == "Comment not found"@ && *final(self) == *old(self),
            has_key(old(self).comments@, comment_id@) ==> r is Ok && ({
                let dead = doomed(old(self).comments@, comment_id@);
                &&& forall|x: Seq<char>|
                    #[trigger] has_key(final(self).comments@, x) == (has_key(
                        old(self).comments@,
                        x,
                    ) && !dead.contains(x))
                &&& forall|x: Seq<char>|
                    has_key(final(self).comments@, x) ==> #[trigger] val_of(
                        final(self).comments@,
                        x,
                    ) == val_of(old(self).comments@, x)
                &&& final(self).updated_at == now
                &&& final(self).post_id == old(self).post_id
                &&& final(self).content == old(self).content
                &&& final(self).created_by == old(self).created_by
                &&& final(self).likes@ == old(self).likes@
                &&& final(self).created_at == old(self).created_at
            }),
    {
        let ghost s0 = self.comments@;
        if !self.comments.contains_key(comment_id.as_str()) {
            return Err(String::from_str("Comment not found"));
        }
        let mut to_remove = IdSet::new();
        to_remove.insert(comment_id.clone());
        let n = self.comments.len();
        let mut i: usize = 0;
        proof {
            assert forall|x: Seq<char>| #[trigger] has_id(to_remove@, x) implies doomed_upto(
                s0,
                comment_id@,
                0,
            ).contains(x) by {
                crate::idmap::lemma_id_index_props(to_remove@, x);
            }
            assert forall|x: Seq<char>| doomed_upto(s0, comment_id@, 0).contains(x) implies
            #[trigger] has_id(to_remove@, x) by {
                assert(x == comment_id@);
            }
        }
        while i < n
            invariant
                i <= n,
                n == self.comments@.len(),
                self.comments@ == s0,
                *self == *old(self),
                old(self).wf(),
                to_remove.wf(),
                forall|x: Seq<char>| #[trigger] has_id(to_remove@, x) == doomed_upto(
                    s0,
                    comment_id@,
                    i as int,
                ).contains(x),
            decreases n - i,
        {
            let ghost t0 = to_remove@;
            let entry_key = self.comments.key_at(i).clone();
            let has_doomed_parent: bool = match self.comments.val_at(i).parent_comment_id {
                Some(ref p) => to_remove.contains(p.as_str()),
                None => false,
            };
            if has_doomed_parent {
                to_remove.insert(entry_key);
            }
            proof {
                let dset = doomed_upto(s0, comment_id@, i + 1);
                assert forall|x: Seq<char>| #[trigger] has_id(to_remove@, x) implies dset.contains(
                    x,
                ) by {
                    if has_id(t0, x) {
                        lemma_doomed_monotone(s0, comment_id@, i as int, i + 1);
                    } else {
                        assert(x == s0[i as int].key@);
                    }
                }
                assert forall|x: Seq<char>| dset.contains(x) implies #[trigger] has_id(
                    to_remove@,
                    x,
                ) by {
                    if doomed_upto(s0, comment_id@, i as int).contains(x) {
                        assert(has_id(t0, x));
                    } else {
                        assert(x == s0[i as int].key@);
                    }
                }
            }
            i = i + 1;
        }
        self.comments.retain_without(&to_remove);
        self.updated_at = now;
        proof {
            crate::idmap::lemma_without_keys(s0, to_remove@);
            let s1 = self.comments@;
            assert forall|k: int|
                0 <= k < s1.len() implies (#[trigger] s1[k]).key@ == s1[k].val.comment_id@
                && s1[k].val.wf() && parent_before(s1, k) by {
                assert(s1.contains(s1[k]));
                let l = choose|l: int| 0 <= l < s0.len() && s0[l] == s1[k];
                assert(s0[l].key@ == s0[l].val.comment_id@ && s0[l].val.wf());
                if parent_of(s1[k].val) is Some {
                    let p = parent_of(s1[k].val)->0;
                    // the parent survived: were it doomed, this comment
                    // would be doomed too and gone
                    assert(has_key(s1, s1[k].key@)) by {
                        lemma_has_key_exists(s1, s1[k].key@);
                    }
                    assert(!has_id(to_remove@, s1[k].key@));
                    assert(!doomed(s0, comment_id@).contains(s1[k].key@));
                    assert(s0[l].key@ == s1[k].key@);
                    if doomed(s0, comment_id@).contains(p) {
                        lemma_doomed_closed(s0, comment_id@, l);
                        assert(false);
                    }
                    assert(parent_before(s0, l));
                    let j0 = choose|j0: int| 0 <= j0 < l && s0[j0].key@ == p;
                    assert(has_key(s0, p)) by {
                        lemma_has_key_exists(s0, p);
                    }
                    assert(has_key(s1, p));
                    lemma_key_index_props(s1, p);
                    let jn = key_index(s1, p);
                    // order is preserved by filtering: the parent's kept
                    // position is before this comment's kept position
                    lemma_filter_keeps_order(s0, to_remove@, l, k);
                }
            }
        }
        Ok(())
    }
}

/// Filtering keeps relative order: a kept entry's earlier relatives stay
/// earlier.  Stated for the parent lookup: if `s1` is `s0` without some
/// keys, entry `s1[k]` came from `s0[l]`, and some earlier `s0[j] (j < l)`
/// has a surviving key `p`, then `p` occurs in `s1` before position `k`.
proof fn lemma_filter_keeps_order(
    s0: Seq<IdEntry<Comment>>,
    ids: Seq<String>,
    l: int,
    k: int,
)
    requires
        crate::idmap::unique_keys(s0),
        0 <= l < s0.len(),
        0 <= k < without_keys(s0, ids).len(),
        without_keys(s0, ids)[k] == s0[l],
        parent_of(s0[l].val) is Some,
        exists|j: int| 0 <= j < l && s0[j].key@ == parent_of(s0[l].val)->0,
        has_key(without_keys(s0, ids), parent_of(s0[l].val)->0),
    ensures
        parent_before(without_keys(s0, ids), k),
    decreases s0.len(),
{
    reveal(Seq::filter);
    let s1 = without_keys(s0, ids);
    let p = parent_of(s0[l].val)->0;
    let j = choose|j: int| 0 <= j < l && s0[j].key@ == p;
    lemma_without_keys_prefix(s0, ids, l);
    // the prefix of s0 before position l filters to the prefix of s1
    // before position k1 where s1[k1] == s0[l]; since keys are unique,
    // k1 == k
    assert(parent_before(s1, k)) by {
        let pre0 = s0.subrange(0, l);
        let pre1 = without_keys(pre0, ids);
        crate::idmap::lemma_without_keys(s0, ids);
        crate::idmap::lemma_without_keys(pre0, ids);
        assert(crate::idmap::unique_keys(pre0)) by {
            assert forall|a: int, b: int| 0 <= a < b < pre0.len() implies pre0[a].key@
                != pre0[b].key@ by {
                assert(pre0[a] == s0[a]);
                assert(pre0[b] == s0[b]);
            }
        }
        assert(pre0[j] == s0[j]);
        assert(has_key(pre0, p)) by {
            lemma_has_key_exists(pre0, p);
        }
        assert(!has_id(ids, p)) by {
            assert(has_key(s1, p));
        }
        assert(has_key(pre1, p));
        // pre1 is a prefix of s1 ending before position k
        lemma_filter_prefix_position(s0, ids, l, k);
        lemma_has_key_exists(pre1, p);
        let q = choose|q: int| 0 <= q < pre1.len() && pre1[q].key@ == p;
        assert(s1[q] == pre1[q]);
        assert(s1[q].key@ == p);
        assert(q < k);
    }
}

/// The filtered prefix before a kept entry is exactly the prefix of the
/// filtered sequence before that entry's kept position.
proof fn lemma_filter_prefix_position(s0: Seq<IdEntry<Comment>>, ids: Seq<String>, l: int, k: int)
    requires
        crate::idmap::unique_keys(s0),
        0 <= l < s0.len(),
        0 <= k < without_keys(s0, ids).len(),
        without_keys(s0, ids)[k] == s0[l],
    ensures
        without_keys(s0.subrange(0, l), ids).len() <= k,
        forall|q: int|
            0 <= q < without_keys(s0.subrange(0, l), ids).len() ==> #[trigger] without_keys(
                s0.subrange(0, l),
                ids,
            )[q] == without_keys(s0, ids)[q],
    decreases s0.len(),
{
    reveal(Seq::filter);
    let s1 = without_keys(s0, ids);
    if l == s0.len() - 1 {
        let pre0 = s0.subrange(0, l);
        assert(s0 =~= pre0.push(s0[l]));
        assert(s1[k] == s0[l]);
        // s0[l] is kept, so s1 == without_keys(pre0).push(s0[l])
        assert(!has_id(ids, s0[l].key@)) by {
            crate::idmap::lemma_without_keys(s0, ids);
            lemma_has_key_exists(s1, s0[l].key@);
        }
        assert(s1 == without_keys(pre0, ids).push(s0[l]));
        assert(k <= without_keys(pre0, ids).len());
        // k is the position of s0[l]'s key; it cannot be inside the prefix
        // part because that key does not occur there
        if k < without_keys(pre0, ids).len() {
            assert(without_keys(pre0, ids)[k] == s0[l]);
            crate::idmap::lemma_without_keys(pre0, ids);
            assert(without_keys(pre0, ids).contains(s0[l])) by {
                assert(without_keys(pre0, ids)[k] == s0[l]);
            }
            let m = choose|m: int| 0 <= m < pre0.len() && pre0[m] == s0[l];
            assert(s0[m] == s0[l]);
            assert(m < l);
            assert(s0[m].key@ == s0[l].key@);
            assert(false);
        }
        assert(k == without_keys(pre0, ids).len());
    } else {
        // peel the last element of s0
        let sd = s0.drop_last();
        let e = s0.last();
        assert(crate::idmap::unique_keys(sd)) by {
            assert forall|a: int, b: int| 0 <= a < b < sd.len() implies sd[a].key@
                != sd[b].key@ by {
                assert(sd[a] == s0[a]);
                assert(sd[b] == s0[b]);
            }
        }
        let t1 = without_keys(sd, ids);
        if !has_id(ids, e.key@) {
            assert(without_keys(s0, ids) == t1.push(e));
            if k < t1.len() {
                assert(t1[k] == s1[k]);
                assert(sd[l] == s0[l]);
                lemma_filter_prefix_position(sd, ids, l, k);
                assert(sd.subrange(0, l) =~= s0.subrange(0, l));
            } else {
                // s1[k] == e == s0[last]; but l < last and keys unique
                assert(s1[k] == e);
                assert(s0[l].key@ == e.key@);
                assert(l == s0.len() - 1);
                assert(false);
            }
        } else {
            assert(without_keys(s0, ids) == t1);
            assert(sd[l] == s0[l]);
            lemma_filter_prefix_position(sd, ids, l, k);
            assert(sd.subrange(0, l) =~= s0.subrange(0, l));
        }
    }
}

/// A prefix filters to a prefix (helper fact used where the subrange is
/// taken before filtering).
proof fn lemma_without_keys_prefix(s0: Seq<IdEntry<Comment>>, ids: Seq<String>, l: int)
    requires
        0 <= l <= s0.len(),
    ensures
        without_keys(s0.subrange(0, l), ids).len() <= without_keys(s0, ids).len(),
    decreases s0.len() - l,
{
    reveal(Seq::filter);
    if l < s0.len() {
        let cur = s0.subrange(0, l + 1);
        assert(cur.drop_last() =~= s0.subrange(0, l));
        lemma_without_keys_prefix(s0, ids, l + 1);
        assert(s0.subrange(0, s0.len() as int) =~= s0);
        assert(without_keys(s0.subrange(0, l), ids).len() <= without_keys(cur, ids).len());
    } else {
        assert(s0.subrange(0, l) =~= s0);
    }
}


impl Post {
    /// Record (or replace) a like on a comment; fails when the comment is
    /// unknown.
    pub fn set_comment_like(
        &mut self,
        comment_id: String,
        user_id: String,
        like_type: LikeType,
        now: u64,
    ) -> (r: Result<(), String>)
        requires
            old(self).wf(),
        ensures
            final(self).wf(),
            !has_key(old(self).comments@, comment_id@) ==> r is Err && r->Err_0@
                == "Comment not found"@ && *final(self) == *old(self),
            has_key(old(self).comments@, comment_id@) ==> r is Ok && ({
                let i = key_index(old(self).comments@, comment_id@);
                let c0 = old(self).comments@[i].val;
                let c1 = final(self).comments@[i].val;
                &&& final(self).comments@ == old(self).comments@.update(
                    i,
                    final(self).comments@[i],
                )
                &&& final(self).comments@[i].key == old(self).comments@[i].key
                &&& c1.comment_id == c0.comment_id
                &&& c1.parent_comment_id == c0.parent_comment_id
                &&& c1.content == c0.content
                &&& c1.created_by == c0.created_by
                &&& c1.created_at == c0.created_at
                &&& c1.updated_at == now
                &&& has_key(c1.likes@, user_id@)
                &&& val_of(c1.likes@, user_id@) == like_type
                &&& forall|x: Seq<char>|
                    x != user_id@ ==> #[trigger] has_key(c1.likes@, x) == has_key(c0.likes@, x)
                &&& forall|x: Seq<char>|
                    x != user_id@ && has_key(c0.likes@, x) ==> #[trigger] val_of(c1.likes@, x)
                        == val_of(c0.likes@, x)
                &&& c1.likes@.len() == c0.likes@.len() + (if has_key(c0.likes@, user_id@) {
                    0int
                } else {
                    1int
                })
                &&& final(self).updated_at == old(self).updated_at
                &&& final(self).post_id == old(self).post_id
                &&& final(self).content == old(self).content
                &&& final(self).created_by == old(self).created_by
                &&& final(self).likes@ == old(self).likes@
                &&& final(self).created_at == old(self).created_at
            }),
    {
        let ghost s0 = self.comments@;
        match self.comments.index_of(comment_id.as_str()) {
            Some(i) => {
                proof {
                    lemma_key_index_props(s0, comment_id@);
                }
                let comment = self.comments.val_at_mut(i);
                comment.likes.insert(user_id, like_type);
                comment.updated_at = now;
                proof {
                    let s1 = self.comments@;
                    crate::idmap::lemma_key_index_update(s0, i as int, s1[i as int]);
                    assert forall|k: int|
                        0 <= k < s1.len() implies (#[trigger] s1[k]).key@ == s1[k].val.comment_id@
                        && s1[k].val.wf() && parent_before(s1, k) by {
                        if k != i {
                            assert(s1[k] == s0[k]);
                        }
                        assert(parent_before(s0, k));
                        if parent_of(s0[k].val) is Some {
                            let j = choose|j: int|
                                0 <= j < k && s0[j].key@ == parent_of(s0[k].val)->0;
                            assert(s1[j].key@ == s0[j].key@);
                        }
                        assert(parent_of(s1[k].val) == parent_of(s0[k].val));
                    }
                    assert forall|a: int, b: int|
                        0 <= a < b < s1.len() implies s1[a].key@ != s1[b].key@ by {
                        assert(s0[a].key@ != s0[b].key@);
                    }
                }
                Ok(())
            },
            None => Err(String::from_str("Comment not found")),
        }
    }

    /// Drop a user's like from a comment; fails only when the comment is
    /// unknown, and is a silent success when the like was never there.
    pub fn remove_comment_like(&mut self, comment_id: String, user_id: String, now: u64) -> (r:
        Result<(), String>)
        requires
            old(self).wf(),
        ensures
            final(self).wf(),
            !has_key(old(self).comments@, comment_id@) ==> r is Err && r->Err_0@
                == "Comment not found"@ && *final(self) == *old(self),
            has_key(old(self).comments@, comment_id@) ==> r is Ok && ({
                let i = key_index(old(self).comments@, comment_id@);
                let c0 = old(self).comments@[i].val;
                let c1 = final(self).comments@[i].val;
                let had = has_key(c0.likes@, user_id@);
                &&& final(self).comments@ == old(self).comments@.update(
                    i,
                    final(self).comments@[i],
                )
                &&& final(self).comments@[i].key == old(self).comments@[i].key
                &&& c1.comment_id == c0.comment_id
                &&& c1.parent_comment_id == c0.parent_comment_id
                &&& c1.content == c0.content
                &&& c1.created_by == c0.created_by
                &&& c1.created_at == c0.created_at
                &&& !has_key(c1.likes@, user_id@)
                &&& forall|x: Seq<char>|
                    x != user_id@ ==> #[trigger] has_key(c1.likes@, x) == has_key(c0.likes@, x)
                &&& forall|x: Seq<char>|
                    x != user_id@ && has_key(c0.likes@, x) ==> #[trigger] val_of(c1.likes@, x)
                        == val_of(c0.likes@, x)
                &&& c1.likes@.len() == c0.likes@.len() - (if had {
                    1int
                } else {
                    0int
                })
                &&& (had ==> c1.updated_at == now)
                &&& (!had ==> c1.updated_at == c0.updated_at)
                &&& final(self).updated_at == old(self).updated_at
                &&& final(self).post_id == old(self).post_id
                &&& final(self).content == old(self).content
                &&& final(self).created_by == old(self).created_by
                &&& final(self).likes@ == old(self).likes@
                &&& final(self).created_at == old(self).created_at
            }),
    {
        let ghost s0 = self.comments@;
        match self.comments.index_of(comment_id.as_str()) {
            Some(i) => {
                proof {
                    lemma_key_index_props(s0, comment_id@);
                }
                let comment = self.comments.val_at_mut(i);
                let removed = comment.likes.remove(user_id.as_str());
                if removed {
                    comment.updated_at = now;
                }
                proof {
                    let s1 = self.comments@;
                    crate::idmap::lemma_key_index_update(s0, i as int, s1[i as int]);
                    assert forall|k: int|
                        0 <= k < s1.len() implies (#[trigger] s1[k]).key@ == s1[k].val.comment_id@
                        && s1[k].val.wf() && parent_before(s1, k) by {
                        if k != i {
                            assert(s1[k] == s0[k]);
                        }
                        assert(parent_before(s0, k));
                        if parent_of(s0[k].val) is Some {
                            let j = choose|j: int|
                                0 <= j < k && s0[j].key@ == parent_of(s0[k].val)->0;
                            assert(s1[j].key@ == s0[j].key@);
                        }
                        assert(parent_of(s1[k].val) == parent_of(s0[k].val));
                    }
                    assert forall|a: int, b: int|
                        0 <= a < b < s1.len() implies s1[a].key@ != s1[b].key@ by {
                        assert(s0[a].key@ != s0[b].key@);
                    }
                }
                Ok(())
            },
            None => Err(String::from_str("Comment not found")),
        }
    }
}

/// A post's identity and timestamps, as handed to the coalescing updater.
#[derive(Debug)]
pub struct PostUpdate {
    pub post_id: String,
    pub created_at: u64,
    pub updated_at: u64,
}

impl PostUpdate {
    pub fn from(value: &Post) -> (r: PostUpdate)
        ensures
            r.post_id@ == value.post_id@,
            r.created_at == value.created_at,
            r.updated_at == value.updated_at,
    {
        PostUpdate {
            post_id: value.post_id.clone(),
            created_at: value.created_at,
            updated_at: value.updated_at,
        }
    }
}

/// Instruction to a creator's coalescing updater: record this update, and
/// drain at once when `immediate` holds.
#[derive(Debug)]
pub struct PostUpdateTrigger {
    pub creator_id: String,
    pub update: PostUpdate,
    pub immediate: bool,
}

/// Durable Post actor: an optional `Post` state, created only by an
/// explicit `init_post`.  Mutations that move the post's timestamps report
/// the updater trigger to deliver.
pub struct PostActor {
    pub id: String,
    pub state: Option<Post>,
}

impl PostActor {
    pub open spec fn wf(&self) -> bool {
        match self.state {
            Some(p) => p.wf() && p.post_id@ == self.id@,
            None => true,
        }
    }

    pub fn new(id: String) -> (r: PostActor)
        ensures
            r.id == id,
            r.state is None,
            r.wf(),
    {
        PostActor { id, state: None }
    }

    pub fn get_post(&self) -> (r: &Option<Post>)
        ensures
            r == &self.state,
    {
        &self.state
    }

    /// Create the post; fails when it already exists.  The creator's
    /// updater is told to process the update immediately.
    pub fn init_post(&mut self, user_id: String, content: String, now: u64) -> (r: Result<
        PostUpdateTrigger,
        String,
    >)
        requires
            old(self).wf(),
        ensures
            final(self).wf(),
            final(self).id == old(self).id,
            old(self).state is Some ==> r is Err && r->Err_0@ == "Post already exists"@ && *final(self) == *old(self),
            old(self).state is None ==> r is Ok && final(self).state is Some && ({
                let p = final(self).state->0;
                let tg = r->Ok_0;
                &&& p.post_id@ == old(self).id@
                &&& p.created_by == user_id
                &&& p.content == content
                &&& p.likes@.len() == 0
                &&& p.comments@.len() == 0
                &&& p.created_at == now
                &&& p.updated_at == now
                &&& tg.creator_id@ == user_id@
                &&& tg.update.post_id@ == old(self).id@
                &&& tg.update.created_at == now
                &&& tg.update.updated_at == now
                &&& tg.immediate
            }),
    {
        if self.state.is_some() {
            return Err(String::from_str("Post already exists"));
        }
        let mut post = Post::new(self.id.clone(), now);
        post.created_by = user_id.clone();
        post.content = content;
        post.created_at = now;
        post.updated_at = now;
        let update = PostUpdate::from(&post);
        self.state = Some(post);
        Ok(PostUpdateTrigger { creator_id: user_id, update, immediate: true })
    }

    /// Add a comment under a freshly minted id; fails when the post does
    /// not exist, is at its comment cap, or the named parent is unknown (a
    /// minted id that is somehow already taken is refused too).  On success
    /// the commenting user's updater is told about the change, without
    /// immediate draining.
    pub fn add_comment(
        &mut self,
        user_id: String,
        content: String,
        parent_comment_id: Option<String>,
        now: u64,
    ) -> (r: Result<(String, PostUpdateTrigger), String>)
        requires
            old(self).wf(),
        ensures
            final(self).wf(),
            final(self).id == old(self).id,
            old(self).state is None ==> r is Err && r->Err_0@ == "Post not exists"@ && *final(self)
                == *old(self),
            old(self).state is Some && old(self).state->0.comments@.len() >= COMMENTS_MAX_COUNT
                as int ==> r is Err && r->Err_0@ == "Max comment length"@ && *final(self) == *old(self),
            old(self).state is Some && old(self).state->0.comments@.len() < COMMENTS_MAX_COUNT
                as int && (match parent_comment_id {
                Some(ref p) => !has_key(old(self).state->0.comments@, p@),
                None => false,
            }) ==> r is Err && r->Err_0@ == "Parent comment not found"@ && *final(self) == *old(self),
            old(self).state is Some && old(self).state->0.comments@.len() < COMMENTS_MAX_COUNT
                as int && !(match parent_comment_id {
                Some(ref p) => !has_key(old(self).state->0.comments@, p@),
                None => false,
            }) ==> (r is Err && r->Err_0@ == "Comment already exists"@ && *final(self) == *old(
                self,
            )) || (r is Ok && final(self).state is Some && ({
                let p0 = old(self).state->0;
                let p1 = final(self).state->0;
                let id = r->Ok_0.0;
                let tg = r->Ok_0.1;
                let c = p1.comments@.last().val;
                &&& !has_key(p0.comments@, id@)
                &&& p1.comments@ == p0.comments@.push(p1.comments@.last())
                &&& p1.comments@.last().key@ == id@
                &&& c.comment_id@ == id@
                &&& parent_of(c) == (match parent_comment_id {
                    Some(ref pp) => Some(pp@),
                    None => None::<Seq<char>>,
                })
                &&& c.content == content
                &&& c.created_by@ == user_id@
                &&& c.likes@.len() == 0
                &&& c.created_at == now
                &&& c.updated_at == now
                &&& p1.updated_at == now
                &&& p1.post_id == p0.post_id
                &&& p1.content == p0.content
                &&& p1.created_by == p0.created_by
                &&& p1.likes@ == p0.likes@
                &&& p1.created_at == p0.created_at
                &&& tg.creator_id@ == user_id@
                &&& tg.update.post_id@ == p0.post_id@
                &&& tg.update.created_at == p0.created_at
                &&& tg.update.updated_at == now
                &&& !tg.immediate
            })),
    {
        let state = match &mut self.state {
            Some(p) => p,
            None => {
                return Err(String::from_str("Post not exists"));
            },
        };
        if state.comments.len() >= COMMENTS_MAX_COUNT {
            return Err(String::from_str("Max comment length"));
        }
        let comment_id = crate::idgen::new_uuid();
        match state.add_comment(user_id.clone(), content, parent_comment_id, comment_id, now) {
            Ok(id) => {
                let update = PostUpdate::from(state);
                Ok((id, PostUpdateTrigger { creator_id: user_id, update, immediate: false }))
            },
            Err(e) => Err(e),
        }
    }

    /// Remove a comment subtree; the creator's updater is told about the
    /// change, without immediate draining.
    pub fn remove_comment(&mut self, comment_id: String, now: u64) -> (r: Result<
        PostUpdateTrigger,
        String,
    >)
        requires
            old(self).wf(),
        ensures
            final(self).wf(),
            final(self).id == old(self).id,
            old(self).state is None ==> r is Err && r->Err_0@ == "Post not exists"@ && *final(self)
                == *old(self),
            old(self).state is Some && !has_key(old(self).state->0.comments@, comment_id@) ==> r
                is Err && r->Err_0@ == "Comment not found"@ && *final(self) == *old(self),
            old(self).state is Some && has_key(old(self).state->0.comments@, comment_id@) ==> r
                is Ok && final(self).state is Some && ({
                let p0 = old(self).state->0;
                let p1 = final(self).state->0;
                let dead = doomed(p0.comments@, comment_id@);
                let tg = r->Ok_0;
                &&& forall|x: Seq<char>|
                    #[trigger] has_key(p1.comments@, x) == (has_key(p0.comments@, x)
                        && !dead.contains(x))
                &&& forall|x: Seq<char>|
                    has_key(p1.comments@, x) ==> #[trigger] val_of(p1.comments@, x) == val_of(
                        p0.comments@,
                        x,
                    )
                &&& p1.updated_at == now
                &&& p1.post_id == p0.post_id
                &&& p1.content == p0.content
                &&& p1.created_by == p0.created_by
                &&& p1.likes@ == p0.likes@
                &&& p1.created_at == p0.created_at
                &&& tg.creator_id@ == p0.created_by@
                &&& tg.update.post_id@ == p0.post_id@
                &&& tg.update.created_at == p0.created_at
                &&& tg.update.updated_at == now
                &&& !tg.immediate
            }),
    {
        let state = match &mut self.state {
            Some(p) => p,
            None => {
                return Err(String::from_str("Post not exists"));
            },
        };
        let creator = state.created_by.clone();
        match state.remove_comment(comment_id, now) {
            Ok(_) => {
                let update = PostUpdate::from(state);
                Ok(PostUpdateTrigger { creator_id: creator, update, immediate: false })
            },
            Err(e) => Err(e),
        }
    }

    /// Upsert a like on the post; no fan-out.
    pub fn set_like(&mut self, user_id: String, like_type: LikeType, now: u64) -> (r: Result<
        (),
        String,
    >)
        requires
            old(self).wf(),
        ensures
            final(self).wf(),
            final(self).id == old(self).id,
            old(self).state is None ==> r is Err && r->Err_0@ == "Post not exists"@ && *final(self)
                == *old(self),
            old(self).state is Some ==> r is Ok && final(self).state is Some && ({
                let p0 = old(self).state->0;
                let p1 = final(self).state->0;
                &&& has_key(p1.likes@, user_id@)
                &&& val_of(p1.likes@, user_id@) == like_type
                &&& forall|x: Seq<char>|
                    x != user_id@ ==> #[trigger] has_key(p1.likes@, x) == has_key(p0.likes@, x)
                &&& forall|x: Seq<char>|
                    x != user_id@ && has_key(p0.likes@, x) ==> #[trigger] val_of(p1.likes@, x)
                        == val_of(p0.likes@, x)
                &&& p1.likes@.len() == p0.likes@.len() + (if has_key(p0.likes@, user_id@) {
                    0int
                } else {
                    1int
                })
                &&& p1.updated_at == now
                &&& p1.comments@ == p0.comments@
                &&& p1.post_id == p0.post_id
                &&& p1.content == p0.content
                &&& p1.created_by == p0.created_by
                &&& p1.created_at == p0.created_at
            }),
    {
        let state = match &mut self.state {
            Some(p) => p,
            None => {
                return Err(String::from_str("Post not exists"));
            },
        };
        state.set_like(user_id, like_type, now);
        Ok(())
    }

    /// Delete a like on the post; no fan-out, silent when absent.
    pub fn remove_like(&mut self, user_id: String, now: u64) -> (r: Result<(), String>)
        requires
            old(self).wf(),
        ensures
            final(self).wf(),
            final(self).id == old(self).id,
            old(self).state is None ==> r is Err && r->Err_0@ == "Post not exists"@ && *final(self)
                == *old(self),
            old(self).state is Some ==> r is Ok && final(self).state is Some && ({
                let p0 = old(self).state->0;
                let p1 = final(self).state->0;
                &&& !has_key(p1.likes@, user_id@)
                &&& forall|x: Seq<char>|
                    x != user_id@ ==> #[trigger] has_key(p1.likes@, x) == has_key(p0.likes@, x)
                &&& forall|x: Seq<char>|
                    x != user_id@ && has_key(p0.likes@, x) ==> #[trigger] val_of(p1.likes@, x)
                        == val_of(p0.likes@, x)
                &&& p1.likes@.len() == p0.likes@.len() - (if has_key(p0.likes@, user_id@) {
                    1int
                } else {
                    0int
                })
                &&& (has_key(p0.likes@, user_id@) ==> p1.updated_at == now)
                &&& (!has_key(p0.likes@, user_id@) ==> p1.updated_at == p0.updated_at)
                &&& p1.comments@ == p0.comments@
                &&& p1.post_id == p0.post_id
                &&& p1.content == p0.content
                &&& p1.created_by == p0.created_by
                &&& p1.created_at == p0.created_at
            }),
    {
        let state = match &mut self.state {
            Some(p) => p,
            None => {
                return Err(String::from_str("Post not exists"));
            },
        };
        state.remove_like(user_id, now);
        Ok(())
    }

    /// Like a comment; fails when the post or the comment is missing.
    pub fn set_comment_like(
        &mut self,
        comment_id: String,
        user_id: String,
        like_type: LikeType,
        now: u64,
    ) -> (r: Result<(), String>)
        requires
            old(self).wf(),
        ensures
            final(self).wf(),
            final(self).id == old(self).id,
            old(self).state is None ==> r is Err && r->Err_0@ == "Post not exists"@ && *final(self)
                == *old(self),
            old(self).state is Some && !has_key(old(self).state->0.comments@, comment_id@) ==> r
                is Err && r->Err_0@ == "Comment not found"@ && *final(self) == *old(self),
            old(self).state is Some && has_key(old(self).state->0.comments@, comment_id@) ==> r
                is Ok && final(self).state is Some && ({
                let p0 = old(self).state->0;
                let p1 = final(self).state->0;
                let i = key_index(p0.comments@, comment_id@);
                let c0 = p0.comments@[i].val;
                let c1 = p1.comments@[i].val;
                &&& p1.comments@ == p0.comments@.update(i, p1.comments@[i])
                &&& has_key(c1.likes@, user_id@)
                &&& val_of(c1.likes@, user_id@) == like_type
                &&& forall|x: Seq<char>|
                    x != user_id@ ==> #[trigger] has_key(c1.likes@, x) == has_key(c0.likes@, x)
                &&& c1.likes@.len() == c0.likes@.len() + (if has_key(c0.likes@, user_id@) {
                    0int
                } else {
                    1int
                })
                &&& c1.updated_at == now
            }),
    {
        let state = match &mut self.state {
            Some(p) => p,
            None => {
                return Err(String::from_str("Post not exists"));
            },
        };
        state.set_comment_like(comment_id, user_id, like_type, now)
    }

    /// Drop a like from a comment; fails when the post or the comment is
    /// missing; a like that was never there is a silent success.
    pub fn remove_comment_like(&mut self, comment_id: String, user_id: String, now: u64) -> (r:
        Result<(), String>)
        requires
            old(self).wf(),
        ensures
            final(self).wf(),
            final(self).id == old(self).id,
            old(self).state is None ==> r is Err && r->Err_0@ == "Post not exists"@ && *final(self)
                == *old(self),
            old(self).state is Some && !has_key(old(self).state->0.comments@, comment_id@) ==> r
                is Err && r->Err_0@ == "Comment not found"@ && *final(self) == *old(self),
            old(self).state is Some && has_key(old(self).state->0.comments@, comment_id@) ==> r
                is Ok && final(self).state is Some && ({
                let p0 = old(self).state->0;
                let p1 = final(self).state->0;
                let i = key_index(p0.comments@, comment_id@);
                let c0 = p0.comments@[i].val;
                let c1 = p1.comments@[i].val;
                let had = has_key(c0.likes@, user_id@);
                &&& p1.comments@ == p0.comments@.update(i, p1.comments@[i])
                &&& !has_key(c1.likes@, user_id@)
                &&& forall|x: Seq<char>|
                    x != user_id@ ==> #[trigger] has_key(c1.likes@, x) == has_key(c0.likes@, x)
                &&& c1.likes@.len() == c0.likes@.len() - (if had {
                    1int
                } else {
                    0int
                })
                &&& (had ==> c1.updated_at == now)
                &&& (!had ==> c1.updated_at == c0.updated_at)
            }),
    {
        let state = match &mut self.state {
            Some(p) => p,
            None => {
                return Err(String::from_str("Post not exists"));
            },
        };
        state.remove_comment_like(comment_id, user_id, now)
    }
}


/// One `field:value` filter as it applies to a post (without the comment
/// search, which only the standalone matcher offers); unknown fields fail
/// closed, the provenance filter is settled on references alone.
pub open spec fn post_filter_ok(field: Seq<char>, value: Seq<char>, p: Post) -> bool {
    if field == "created-by"@ || field == "createdby"@ {
        spec_text_exact_matches(p.created_by@, value)
    } else if field == "content"@ {
        spec_text_matches(p.content@, value)
    } else if field == "connection-type"@ || field == "connectiontype"@ {
        true
    } else {
        false
    }
}

/// As `post_filter_ok`, with the comment-content filter of the standalone
/// matcher: some comment's content must match.
pub open spec fn post_filter_ok_full(field: Seq<char>, value: Seq<char>, p: Post) -> bool {
    if field == "comments"@ {
        exists|i: int|
            0 <= i < p.comments@.len() && spec_text_matches(
                (#[trigger] p.comments@[i]).val.content@,
                value,
            )
    } else {
        post_filter_ok(field, value, p)
    }
}

/// A bare term must show up in the post's content.
pub open spec fn post_term_ok(term: Seq<char>, p: Post) -> bool {
    spec_text_matches(p.content@, term)
}

/// Every filter passes and every bare term matches the content.
pub open spec fn spec_post_matches(q: Query, p: Post) -> bool {
    &&& forall|i: int|
        0 <= i < q.filters_view().len() ==> #[trigger] post_filter_ok(
            q.filters_view()[i].0,
            q.filters_view()[i].1,
            p,
        )
    &&& forall|i: int|
        0 <= i < q.terms_view().len() ==> #[trigger] post_term_ok(q.terms_view()[i], p)
}

/// As `spec_post_matches`, with the comment-content filter.
pub open spec fn spec_post_matches_full(q: Query, p: Post) -> bool {
    &&& forall|i: int|
        0 <= i < q.filters_view().len() ==> #[trigger] post_filter_ok_full(
            q.filters_view()[i].0,
            q.filters_view()[i].1,
            p,
        )
    &&& forall|i: int|
        0 <= i < q.terms_view().len() ==> #[trigger] post_term_ok(q.terms_view()[i], p)
}

fn comments_content_match(p: &Post, value: &str) -> (r: bool)
    ensures
        r == exists|i: int|
            0 <= i < p.comments@.len() && spec_text_matches(
                (#[trigger] p.comments@[i]).val.content@,
                value@,
            ),
{
    let n = p.comments.len();
    let mut i: usize = 0;
    while i < n
        invariant
            i <= n,
            n == p.comments@.len(),
            forall|j: int|
                0 <= j < i ==> !spec_text_matches((#[trigger] p.comments@[j]).val.content@, value@),
        decreases n - i,
    {
        if text_matches(p.comments.val_at(i).content.as_str(), value) {
            return true;
        }
        i = i + 1;
    }
    false
}

/// Whether a post matches the query, comment contents included.
pub fn matches_post(post: Post, query: Query) -> (r: bool)
    ensures
        r == spec_post_matches_full(query, post),
{
    let nf = query.field_filters.len();
    let mut i: usize = 0;
    while i < nf
        invariant
            i <= nf,
            nf == query.field_filters@.len(),
            forall|j: int|
                0 <= j < i ==> #[trigger] post_filter_ok_full(
                    query.filters_view()[j].0,
                    query.filters_view()[j].1,
                    post,
                ),
        decreases nf - i,
    {
        let field = &query.field_filters[i].0;
        let value = &query.field_filters[i].1;
        let ok: bool = if str_eq(field.as_str(), "comments") {
            comments_content_match(&post, value.as_str())
        } else if str_eq(field.as_str(), "created-by") || str_eq(field.as_str(), "createdby") {
            text_exact_matches(post.created_by.as_str(), value.as_str())
        } else if str_eq(field.as_str(), "content") {
            text_matches(post.content.as_str(), value.as_str())
        } else if str_eq(field.as_str(), "connection-type") || str_eq(
            field.as_str(),
            "connectiontype",
        ) {
            true
        } else {
            false
        };
        if !ok {
            proof {
                assert(!post_filter_ok_full(
                    query.filters_view()[i as int].0,
                    query.filters_view()[i as int].1,
                    post,
                ));
            }
            return false;
        }
        i = i + 1;
    }
    let nt = query.terms.len();
    let mut k: usize = 0;
    while k < nt
        invariant
            k <= nt,
            nt == query.terms@.len(),
            i == query.field_filters@.len(),
            forall|j: int|
                0 <= j < i ==> #[trigger] post_filter_ok_full(
                    query.filters_view()[j].0,
                    query.filters_view()[j].1,
                    post,
                ),
            forall|j: int|
                0 <= j < k ==> #[trigger] post_term_ok(query.terms_view()[j], post),
        decreases nt - k,
    {
        let term = &query.terms[k];
        if !text_matches(post.content.as_str(), term.as_str()) {
            proof {
                assert(!post_term_ok(query.terms_view()[k as int], post));
            }
            return false;
        }
        k = k + 1;
    }
    true
}

} // verus!
