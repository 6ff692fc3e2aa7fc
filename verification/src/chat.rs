//! Chat entity: participants and an ordered message list, each message with
//! its own like map.  Mutations through the actor report "chat added" /
//! "chat updated" notifications for the participants' UserChats views.

use vstd::prelude::*;
use vstd::string::*;
use crate::common::LikeType;
use crate::idmap::{
    has_id, has_key, id_index, lemma_has_id_exists, lemma_id_index_props, unique_ids, val_of,
    IdMap, IdSet,
};

verus! {

/// Most messages a chat may hold.
pub const MAX_CHAT_LENGTH: usize = 2000;

/// One chat message.
pub struct Message {
    pub message_id: String,
    pub content: String,
    pub likes: IdMap<LikeType>,
    pub created_by: String,
    pub created_at: u64,
    pub updated_at: u64,
}

impl Message {
    pub open spec fn wf(&self) -> bool {
        self.likes.wf()
    }

    pub fn new(message_id: String, user_id: String, content: String, now: u64) -> (r: Message)
        ensures
            r.message_id == message_id,
            r.content == content,
            r.created_by == user_id,
            r.likes@.len() == 0,
            r.created_at == now,
            r.updated_at == now,
            r.wf(),
    {
        Message {
            message_id,
            content,
            likes: IdMap::new(),
            created_by: user_id,
            created_at: now,
            updated_at: now,
        }
    }
}

/// First position of the message with the given id, or -1.
pub open spec fn msg_index(s: Seq<Message>, id: Seq<char>) -> int
    decreases s.len(),
{
    if s.len() == 0 {
        -1
    } else if s[0].message_id@ == id {
        0
    } else {
        let r = msg_index(s.subrange(1, s.len() as int), id);
        if r < 0 {
            -1
        } else {
            1 + r
        }
    }
}

pub open spec fn has_msg(s: Seq<Message>, id: Seq<char>) -> bool {
    msg_index(s, id) >= 0
}

/// Holds of messages whose id differs from `id`.
pub open spec fn msg_id_ne(id: Seq<char>) -> spec_fn(Message) -> bool {
    |m: Message| m.message_id@ != id
}

/// `s` with every message of the given id dropped.
pub open spec fn without_msg(s: Seq<Message>, id: Seq<char>) -> Seq<Message> {
    s.filter(msg_id_ne(id))
}

pub proof fn lemma_msg_index_props(s: Seq<Message>, id: Seq<char>)
    ensures
        -1 <= msg_index(s, id) < s.len(),
        msg_index(s, id) >= 0 ==> s[msg_index(s, id)].message_id@ == id,
        msg_index(s, id) == -1 ==> forall|j: int| 0 <= j < s.len() ==> s[j].message_id@ != id,
    decreases s.len(),
{
    if s.len() == 0 {
    } else if s[0].message_id@ == id {
    } else {
        let rest = s.subrange(1, s.len() as int);
        lemma_msg_index_props(rest, id);
        if msg_index(rest, id) >= 0 {
            assert(s[msg_index(s, id)] == rest[msg_index(rest, id)]);
        }
        if msg_index(s, id) == -1 {
            assert forall|j: int| 0 <= j < s.len() implies s[j].message_id@ != id by {
                if j >= 1 {
                    assert(s[j] == rest[j - 1]);
                }
            }
        }
    }
}

pub proof fn lemma_msg_index_at(s: Seq<Message>, id: Seq<char>, i: int)
    requires
        0 <= i <= s.len(),
        forall|j: int| 0 <= j < i ==> s[j].message_id@ != id,
        i < s.len() ==> s[i].message_id@ == id,
    ensures
        i < s.len() ==> msg_index(s, id) == i,
        i == s.len() ==> msg_index(s, id) == -1,
    decreases s.len(),
{
    if s.len() == 0 {
    } else if s[0].message_id@ == id {
        assert(i == 0);
    } else {
        lemma_msg_index_at(s.subrange(1, s.len() as int), id, i - 1);
    }
}

/// Chat state: creator, distinct participants, ordered messages.
pub struct Chat {
    pub chat_id: String,
    pub created_by: String,
    pub participants: IdSet,
    pub messages: Vec<Message>,
    pub created_at: u64,
    pub updated_at: u64,
}

impl Chat {
    pub open spec fn wf(&self) -> bool {
        &&& self.participants.wf()
        &&& forall|i: int| 0 <= i < self.messages@.len() ==> (#[trigger] self.messages@[i]).wf()
    }

    pub fn new(chat_id: String, now: u64) -> (r: Chat)
        ensures
            r.chat_id == chat_id,
            r.created_by@ == Seq::<char>::empty(),
            r.participants@.len() == 0,
            r.messages@.len() == 0,
            r.created_at == now,
            r.updated_at == now,
            r.wf(),
    {
        let r = Chat {
            chat_id,
            created_by: String::new(),
            participants: IdSet::new(),
            messages: Vec::new(),
            created_at: now,
            updated_at: now,
        };
        r
    }

    /// Append a message and refresh the chat's `updated_at`; hands back the
    /// message id.
    pub fn add_message(
        &mut self,
        created_by: String,
        content: String,
        message_id: String,
        now: u64,
    ) -> (r: String)
        requires
            old(self).wf(),
        ensures
            final(self).wf(),
            r@ == message_id@,
            final(self).messages@.len() == old(self).messages@.len() + 1,
            final(self).messages@ == old(self).messages@.push(
                final(self).messages@.last(),
            ),
            ({
                let m = final(self).messages@.last();
                &&& m.message_id@ == message_id@
                &&& m.content == content
                &&& m.created_by == created_by
                &&& m.likes@.len() == 0
                &&& m.created_at == now
                &&& m.updated_at == now
            }),
            final(self).updated_at == now,
            final(self).chat_id == old(self).chat_id,
            final(self).created_by == old(self).created_by,
            final(self).participants@ == old(self).participants@,
            final(self).created_at == old(self).created_at,
    {
        let id_copy = message_id.clone();
        let message = Message::new(message_id, created_by, content, now);
        self.updated_at = now;
        self.messages.push(message);
        proof {
            assert(self.messages@ =~= old(self).messages@.push(self.messages@.last()));
        }
        id_copy
    }

    /// Drop every message with the given id; refresh `updated_at` and report
    /// success only when one was there.
    pub fn remove_message(&mut self, message_id: String, now: u64) -> (r: bool)
        requires
            old(self).wf(),
        ensures
            final(self).wf(),
            r == has_msg(old(self).messages@, message_id@),
            final(self).messages@ == without_msg(old(self).messages@, message_id@),
            r ==> final(self).updated_at == now,
            !r ==> final(self).updated_at == old(self).updated_at,
            final(self).chat_id == old(self).chat_id,
            final(self).created_by == old(self).created_by,
            final(self).participants@ == old(self).participants@,
            final(self).created_at == old(self).created_at,
    {
        let ghost s0 = self.messages@;
        let mut msgs: Vec<Message> = Vec::new();
        core::mem::swap(&mut msgs, &mut self.messages);
        let mut kept: Vec<Message> = Vec::new();
        let mut found = false;
        let ghost mut seen: int = 0;
        proof {
            reveal(Seq::filter);
            assert(s0.subrange(0, 0) =~= Seq::<Message>::empty());
            assert(without_msg(Seq::<Message>::empty(), message_id@)
                =~= Seq::<Message>::empty());
        }
        while msgs.len() > 0
            invariant
                seen + msgs@.len() == s0.len(),
                0 <= seen <= s0.len(),
                msgs@ == s0.skip(seen),
                kept@ == without_msg(s0.subrange(0, seen), message_id@),
                found == exists|j: int| 0 <= j < seen && s0[j].message_id@ == message_id@,
                forall|i: int| 0 <= i < s0.len() ==> (#[trigger] s0[i]).wf(),
            decreases msgs@.len(),
        {
            let m = msgs.remove(0);
            proof {
                reveal(Seq::filter);
                assert(m == s0[seen]);
                assert(msgs@ =~= s0.skip(seen + 1));
                let pre = s0.subrange(0, seen);
                let cur = s0.subrange(0, seen + 1);
                assert(cur.drop_last() =~= pre);
                assert(cur.last() == s0[seen]);
                if s0[seen].message_id@ != message_id@ {
                    assert(without_msg(cur, message_id@) == without_msg(pre, message_id@).push(
                        s0[seen],
                    ));
                } else {
                    assert(without_msg(cur, message_id@) == without_msg(pre, message_id@));
                }
            }
            let keep = !crate::strutil::str_eq(m.message_id.as_str(), message_id.as_str());
            if keep {
                kept.push(m);
            } else {
                found = true;
            }
            proof {
                seen = seen + 1;
            }
        }
        core::mem::swap(&mut kept, &mut self.messages);
        if found {
            self.updated_at = now;
        }
        proof {
            assert(s0.subrange(0, s0.len() as int) =~= s0);
            if found {
                let j = choose|j: int| 0 <= j < s0.len() && s0[j].message_id@ == message_id@;
                lemma_msg_index_props(s0, message_id@);
                if msg_index(s0, message_id@) == -1 {
                    assert(false);
                }
            } else {
                lemma_msg_index_props(s0, message_id@);
            }
            assert forall|i: int|
                0 <= i < self.messages@.len() implies (#[trigger] self.messages@[i]).wf() by {
                s0.lemma_filter_pred(msg_id_ne(message_id@), i);
                let e = self.messages@[i];
                assert(without_msg(s0, message_id@).contains(e));
                s0.lemma_filter_contains_rev(msg_id_ne(message_id@), e);
                assert(s0.contains(e));
                let j = choose|j: int| 0 <= j < s0.len() && s0[j] == e;
                assert(s0[j].wf());
            }
        }
        found
    }

    /// Record (or replace) a like on the first message with the given id;
    /// reports whether the message exists.
    pub fn set_message_like(
        &mut self,
        message_id: String,
        user_id: String,
        like_type: LikeType,
        now: u64,
    ) -> (r: bool)
        requires
            old(self).wf(),
        ensures
            final(self).wf(),
            r == has_msg(old(self).messages@, message_id@),
            !r ==> *final(self) == *old(self),
            r ==> ({
                let i = msg_index(old(self).messages@, message_id@);
                let m0 = old(self).messages@[i];
                let m1 = final(self).messages@[i];
                &&& final(self).messages@ == old(self).messages@.update(i, m1)
                &&& m1.message_id == m0.message_id
                &&& m1.content == m0.content
                &&& m1.created_by == m0.created_by
                &&& m1.created_at == m0.created_at
                &&& m1.updated_at == now
                &&& has_key(m1.likes@, user_id@)
                &&& val_of(m1.likes@, user_id@) == like_type
                &&& forall|x: Seq<char>|
                    x != user_id@ ==> #[trigger] has_key(m1.likes@, x) == has_key(m0.likes@, x)
                &&& forall|x: Seq<char>|
                    x != user_id@ && has_key(m0.likes@, x) ==> #[trigger] val_of(m1.likes@, x)
                        == val_of(m0.likes@, x)
                &&& m1.likes@.len() == m0.likes@.len() + (if has_key(m0.likes@, user_id@) {
                    0int
                } else {
                    1int
                })
                &&& final(self).updated_at == now
                &&& final(self).chat_id == old(self).chat_id
                &&& final(self).created_by == old(self).created_by
                &&& final(self).participants@ == old(self).participants@
                &&& final(self).created_at == old(self).created_at
            }),
    {
        let ghost s0 = self.messages@;
        let n = self.messages.len();
        let mut i: usize = 0;
        while i < n
            invariant
                i <= n,
                n == self.messages@.len(),
                self.messages@ == s0,
                *self == *old(self),
                old(self).wf(),
                forall|j: int| 0 <= j < i ==> s0[j].message_id@ != message_id@,
            decreases n - i,
        {
            if crate::strutil::str_eq(self.messages[i].message_id.as_str(), message_id.as_str()) {
                proof {
                    lemma_msg_index_at(s0, message_id@, i as int);
                }
                let m = &mut self.messages[i];
                m.likes.insert(user_id, like_type);
                m.updated_at = now;
                self.updated_at = now;
                proof {
                    assert forall|j: int|
                        0 <= j < self.messages@.len() implies (
                    #[trigger] self.messages@[j]).wf() by {
                        if j != i {
                            assert(self.messages@[j] == s0[j]);
                        }
                    }
                }
                return true;
            }
            i = i + 1;
        }
        proof {
            lemma_msg_index_at(s0, message_id@, n as int);
        }
        false
    }

    /// Drop a user's like from the first message with the given id; reports
    /// whether a like was actually removed (false too when the message is
    /// missing).
    pub fn remove_message_like(&mut self, message_id: String, user_id: String, now: u64) -> (r:
        bool)
        requires
            old(self).wf(),
        ensures
            final(self).wf(),
            !has_msg(old(self).messages@, message_id@) ==> !r && *final(self) == *old(self),
            has_msg(old(self).messages@, message_id@) ==> ({
                let i = msg_index(old(self).messages@, message_id@);
                let m0 = old(self).messages@[i];
                let m1 = final(self).messages@[i];
                &&& r == has_key(m0.likes@, user_id@)
                &&& final(self).messages@ == old(self).messages@.update(i, m1)
                &&& m1.message_id == m0.message_id
                &&& m1.content == m0.content
                &&& m1.created_by == m0.created_by
                &&& m1.created_at == m0.created_at
                &&& !has_key(m1.likes@, user_id@)
                &&& forall|x: Seq<char>|
                    x != user_id@ ==> #[trigger] has_key(m1.likes@, x) == has_key(m0.likes@, x)
                &&& forall|x: Seq<char>|
                    x != user_id@ && has_key(m0.likes@, x) ==> #[trigger] val_of(m1.likes@, x)
                        == val_of(m0.likes@, x)
                &&& m1.likes@.len() == m0.likes@.len() - (if r {
                    1int
                } else {
                    0int
                })
                &&& (r ==> m1.updated_at == now && final(self).updated_at == now)
                &&& (!r ==> m1.updated_at == m0.updated_at && final(self).updated_at == old(
                    self,
                ).updated_at)
                &&& final(self).chat_id == old(self).chat_id
                &&& final(self).created_by == old(self).created_by
                &&& final(self).participants@ == old(self).participants@
                &&& final(self).created_at == old(self).created_at
            }),
    {
        let ghost s0 = self.messages@;
        let n = self.messages.len();
        let mut i: usize = 0;
        while i < n
            invariant
                i <= n,
                n == self.messages@.len(),
                self.messages@ == s0,
                *self == *old(self),
                old(self).wf(),
                forall|j: int| 0 <= j < i ==> s0[j].message_id@ != message_id@,
            decreases n - i,
        {
            if crate::strutil::str_eq(self.messages[i].message_id.as_str(), message_id.as_str()) {
                proof {
                    lemma_msg_index_at(s0, message_id@, i as int);
                }
                let m = &mut self.messages[i];
                let removed = m.likes.remove(user_id.as_str());
                if removed {
                    m.updated_at = now;
                }
                if removed {
                    self.updated_at = now;
                }
                proof {
                    assert forall|j: int|
                        0 <= j < self.messages@.len() implies (
                    #[trigger] self.messages@[j]).wf() by {
                        if j != i {
                            assert(self.messages@[j] == s0[j]);
                        }
                    }
                }
                return removed;
            }
            i = i + 1;
        }
        proof {
            lemma_msg_index_at(s0, message_id@, n as int);
        }
        false
    }
}


/// Holds of id strings that differ from `id`.
pub open spec fn id_ne(id: Seq<char>) -> spec_fn(String) -> bool {
    |p: String| p@ != id
}

/// The participants other than `creator`, in order.
pub open spec fn others(ps: Seq<String>, creator: Seq<char>) -> Seq<String> {
    ps.filter(id_ne(creator))
}

/// "Chat added" notification for one participant's UserChats view.
#[derive(Debug)]
pub struct ChatAdded {
    pub target_user_id: String,
    pub chat_id: String,
    pub created_by: String,
    pub created_at: u64,
}

/// "Chat updated" notification for one participant's UserChats view.
#[derive(Debug)]
pub struct ChatUpdated {
    pub target_user_id: String,
    pub chat_id: String,
    pub updated_at: u64,
}

/// The notifications a chat mutation asks the runtime to deliver.
#[derive(Debug)]
pub struct ChatFanout {
    pub added: Vec<ChatAdded>,
    pub updated: Vec<ChatUpdated>,
}

/// One "chat updated" notification per listed participant.
fn chat_updated_fanout(chat_id: &String, participants: &IdSet, updated_at: u64) -> (r: Vec<
    ChatUpdated,
>)
    ensures
        r@.len() == participants@.len(),
        forall|i: int|
            0 <= i < r@.len() ==> (#[trigger] r@[i]).target_user_id@ == participants@[i]@
                && r@[i].chat_id@ == chat_id@ && r@[i].updated_at == updated_at,
{
    let n = participants.len();
    let mut r: Vec<ChatUpdated> = Vec::new();
    let mut i: usize = 0;
    while i < n
        invariant
            i <= n,
            n == participants@.len(),
            r@.len() == i,
            forall|j: int|
                0 <= j < i ==> (#[trigger] r@[j]).target_user_id@ == participants@[j]@
                    && r@[j].chat_id@ == chat_id@ && r@[j].updated_at == updated_at,
        decreases n - i,
    {
        r.push(
            ChatUpdated {
                target_user_id: participants.at(i).clone(),
                chat_id: chat_id.clone(),
                updated_at,
            },
        );
        i = i + 1;
    }
    r
}

/// One "chat added" notification per listed participant other than the
/// creator.
fn chat_added_fanout(
    chat_id: &String,
    created_by: &String,
    created_at: u64,
    participants: &IdSet,
) -> (r: Vec<ChatAdded>)
    ensures
        r@.len() == others(participants@, created_by@).len(),
        forall|i: int|
            0 <= i < r@.len() ==> (#[trigger] r@[i]).target_user_id@ == others(
                participants@,
                created_by@,
            )[i]@ && r@[i].chat_id@ == chat_id@ && r@[i].created_by@ == created_by@
                && r@[i].created_at == created_at,
{
    let ghost ps = participants@;
    let n = participants.len();
    let mut r: Vec<ChatAdded> = Vec::new();
    let mut i: usize = 0;
    proof {
        reveal(Seq::filter);
        assert(ps.subrange(0, 0) =~= Seq::<String>::empty());
        assert(others(Seq::<String>::empty(), created_by@) =~= Seq::<String>::empty());
    }
    while i < n
        invariant
            i <= n,
            n == ps.len(),
            ps == participants@,
            r@.len() == others(ps.subrange(0, i as int), created_by@).len(),
            forall|j: int|
                0 <= j < r@.len() ==> (#[trigger] r@[j]).target_user_id@ == others(
                    ps.subrange(0, i as int),
                    created_by@,
                )[j]@ && r@[j].chat_id@ == chat_id@ && r@[j].created_by@ == created_by@
                    && r@[j].created_at == created_at,
        decreases n - i,
    {
        let ghost pre = ps.subrange(0, i as int);
        let ghost cur = ps.subrange(0, i + 1);
        proof {
            reveal(Seq::filter);
            assert(cur.drop_last() =~= pre);
            assert(cur.last() == ps[i as int]);
        }
        let p = participants.at(i);
        if !crate::strutil::str_eq(p.as_str(), created_by.as_str()) {
            r.push(
                ChatAdded {
                    target_user_id: p.clone(),
                    chat_id: chat_id.clone(),
                    created_by: created_by.clone(),
                    created_at,
                },
            );
            proof {
                assert(others(cur, created_by@) == others(pre, created_by@).push(ps[i as int]));
            }
        } else {
            proof {
                assert(others(cur, created_by@) == others(pre, created_by@));
            }
        }
        i = i + 1;
    }
    proof {
        assert(ps.subrange(0, n as int) =~= ps);
    }
    r
}

/// Durable Chat actor: an optional `Chat` state, created only by an
/// explicit `init_chat`.  Mutations report the fan-out to deliver.
pub struct ChatActor {
    pub id: String,
    pub state: Option<Chat>,
}

impl ChatActor {
    pub open spec fn wf(&self) -> bool {
        match self.state {
            Some(c) => c.wf() && c.chat_id@ == self.id@,
            None => true,
        }
    }

    pub fn new(id: String) -> (r: ChatActor)
        ensures
            r.id == id,
            r.state is None,
            r.wf(),
    {
        ChatActor { id, state: None }
    }

    pub fn get_chat(&self) -> (r: &Option<Chat>)
        ensures
            r == &self.state,
    {
        &self.state
    }

    /// Create the chat with the given participants plus the creator.  Fails
    /// on an existing chat, and when the creator would be alone.  Notifies
    /// the non-creator participants of the new chat and every participant of
    /// its first update.
    pub fn init_chat(
        &mut self,
        participants_ids: Vec<String>,
        created_by: String,
        created_at: u64,
    ) -> (r: Result<ChatFanout, String>)
        requires
            old(self).wf(),
        ensures
            final(self).wf(),
            final(self).id == old(self).id,
            old(self).state is Some ==> r is Err && r->Err_0@ == "Chat already exists"@
                && *final(self) == *old(self),
            old(self).state is None && (forall|x: Seq<char>|
                has_id(participants_ids@, x) ==> x == created_by@) ==> r is Err && r->Err_0@
                == "Chat must have at least 2 participants"@ && final(self).state is None,
            old(self).state is None && (exists|x: Seq<char>|
                has_id(participants_ids@, x) && x != created_by@) ==> r is Ok
                && final(self).state is Some && ({
                let c = final(self).state->0;
                let f = r->Ok_0;
                &&& c.chat_id@ == old(self).id@
                &&& c.created_by@ == created_by@
                &&& c.created_at == created_at
                &&& c.updated_at == created_at
                &&& c.messages@.len() == 0
                &&& forall|x: Seq<char>|
                    #[trigger] has_id(c.participants@, x) == (has_id(participants_ids@, x) || x
                        == created_by@)
                &&& f.updated@.len() == c.participants@.len()
                &&& forall|i: int|
                    0 <= i < f.updated@.len() ==> (#[trigger] f.updated@[i]).target_user_id@
                        == c.participants@[i]@ && f.updated@[i].chat_id@ == old(self).id@
                        && f.updated@[i].updated_at == created_at
                &&& f.added@.len() == others(c.participants@, created_by@).len()
                &&& forall|i: int|
                    0 <= i < f.added@.len() ==> (#[trigger] f.added@[i]).target_user_id@ == others(
                        c.participants@,
                        created_by@,
                    )[i]@ && f.added@[i].chat_id@ == old(self).id@ && f.added@[i].created_by@
                        == created_by@ && f.added@[i].created_at == created_at
            }),
    {
        let mut all = IdSet::new();
        let n = participants_ids.len();
        let mut i: usize = 0;
        while i < n
            invariant
                i <= n,
                n == participants_ids@.len(),
                all.wf(),
                forall|x: Seq<char>|
                    #[trigger] has_id(all@, x) == exists|j: int|
                        0 <= j < i && participants_ids@[j]@ == x,
            decreases n - i,
        {
            let ghost a0 = all@;
            all.insert(participants_ids[i].clone());
            proof {
                assert forall|x: Seq<char>| #[trigger] has_id(all@, x) implies (exists|j: int|
                    0 <= j < i + 1 && participants_ids@[j]@ == x) by {
                    if x == participants_ids@[i as int]@ {
                        assert(participants_ids@[i as int]@ == x);
                    } else {
                        assert(has_id(a0, x));
                    }
                }
                assert forall|x: Seq<char>|
                    (exists|j: int| 0 <= j < i + 1 && participants_ids@[j]@ == x) implies
                #[trigger] has_id(all@, x) by {
                    let j = choose|j: int| 0 <= j < i + 1 && participants_ids@[j]@ == x;
                    if j < i {
                        assert(has_id(a0, x));
                    }
                }
            }
            i = i + 1;
        }
        proof {
            lemma_has_id_exists(participants_ids@, created_by@);
            assert forall|x: Seq<char>| #[trigger] has_id(all@, x) == has_id(
                participants_ids@,
                x,
            ) by {
                lemma_has_id_exists(participants_ids@, x);
            }
        }
        let ghost before_creator = all@;
        all.insert(created_by.clone());
        if self.state.is_some() {
            return Err(String::from_str("Chat already exists"));
        }
        if all.len() < 2 {
            proof {
                lemma_id_index_props(all@, created_by@);
                assert(all@.len() == 1);
                assert(all@[0]@ == created_by@);
                assert forall|x: Seq<char>| has_id(participants_ids@, x) implies x
                    == created_by@ by {
                    assert(has_id(all@, x));
                    lemma_id_index_props(all@, x);
                    assert(all@[id_index(all@, x)]@ == x);
                }
            }
            return Err(String::from_str("Chat must have at least 2 participants"));
        }
        proof {
            assert(exists|x: Seq<char>| has_id(participants_ids@, x) && x != created_by@) by {
                lemma_id_index_props(all@, created_by@);
                let k = id_index(all@, created_by@);
                let other: int = if k == 0 {
                    1
                } else {
                    0
                };
                assert(all@[other]@ != created_by@) by {
                    lemma_id_index_props(all@, all@[other]@);
                    if all@[other]@ == created_by@ {
                        assert(all@[k]@ == created_by@);
                    }
                }
                assert(has_id(all@, all@[other]@)) by {
                    lemma_has_id_all_members(all@, other);
                }
                assert(has_id(participants_ids@, all@[other]@));
            }
        }
        let mut chat = Chat::new(self.id.clone(), created_at);
        chat.created_by = created_by.clone();
        chat.participants = all;
        let added = chat_added_fanout(&chat.chat_id, &chat.created_by, created_at,
            &chat.participants);
        let updated = chat_updated_fanout(&chat.chat_id, &chat.participants, created_at);
        self.state = Some(chat);
        Ok(ChatFanout { added, updated })
    }
}

/// Every member of an id list is found by `has_id`.
pub proof fn lemma_has_id_all_members(s: Seq<String>, i: int)
    requires
        0 <= i < s.len(),
    ensures
        has_id(s, s[i]@),
{
    lemma_has_id_exists(s, s[i]@);
}


impl Chat {
    /// Whether any message has the given id.
    pub fn contains_message(&self, message_id: &str) -> (r: bool)
        ensures
            r == has_msg(self.messages@, message_id@),
    {
        let n = self.messages.len();
        let mut i: usize = 0;
        while i < n
            invariant
                i <= n,
                n == self.messages@.len(),
                forall|j: int| 0 <= j < i ==> self.messages@[j].message_id@ != message_id@,
            decreases n - i,
        {
            if crate::strutil::str_eq(self.messages[i].message_id.as_str(), message_id) {
                proof {
                    lemma_msg_index_at(self.messages@, message_id@, i as int);
                }
                return true;
            }
            i = i + 1;
        }
        proof {
            lemma_msg_index_at(self.messages@, message_id@, n as int);
        }
        false
    }
}

impl ChatActor {
    /// Union new participants into an existing chat.  Fails when the chat
    /// does not exist or nothing is new.  Notifies the new participants of
    /// the chat and the prior participants of the update.
    pub fn add_participants(&mut self, participants_ids: Vec<String>, now: u64) -> (r: Result<
        ChatFanout,
        String,
    >)
        requires
            old(self).wf(),
        ensures
            final(self).wf(),
            final(self).id == old(self).id,
            old(self).state is None ==> r is Err && r->Err_0@ == "Chat not exists"@ && *final(self)
                == *old(self),
            old(self).state is Some && (forall|x: Seq<char>|
                has_id(participants_ids@, x) ==> has_id(
                    old(self).state->0.participants@,
                    x,
                )) ==> r is Err && r->Err_0@ == "No new participants"@ && *final(self) == *old(
                self,
            ),
            old(self).state is Some && (exists|x: Seq<char>|
                has_id(participants_ids@, x) && !has_id(old(self).state->0.participants@, x))
                ==> r is Ok && final(self).state is Some && ({
                let c0 = old(self).state->0;
                let c1 = final(self).state->0;
                let f = r->Ok_0;
                &&& c1.chat_id == c0.chat_id
                &&& c1.created_by == c0.created_by
                &&& c1.created_at == c0.created_at
                &&& c1.updated_at == now
                &&& c1.messages@ == c0.messages@
                &&& forall|x: Seq<char>|
                    #[trigger] has_id(c1.participants@, x) == (has_id(c0.participants@, x)
                        || has_id(participants_ids@, x))
                &&& f.updated@.len() == c0.participants@.len()
                &&& forall|i: int|
                    0 <= i < f.updated@.len() ==> (#[trigger] f.updated@[i]).target_user_id@
                        == c0.participants@[i]@ && f.updated@[i].chat_id@ == c0.chat_id@
                        && f.updated@[i].updated_at == now
                &&& exists|ns: Seq<String>|
                    {
                        &&& unique_ids(ns)
                        &&& forall|x: Seq<char>|
                            #[trigger] has_id(ns, x) == (has_id(participants_ids@, x) && !has_id(
                                c0.participants@,
                                x,
                            ))
                        &&& f.added@.len() == others(ns, c0.created_by@).len()
                        &&& forall|i: int|
                            0 <= i < f.added@.len() ==> (#[trigger] f.added@[i]).target_user_id@
                                == others(ns, c0.created_by@)[i]@ && f.added@[i].chat_id@
                                == c0.chat_id@ && f.added@[i].created_by@ == c0.created_by@
                                && f.added@[i].created_at == now
                    }
            }),
    {
        let state = match &mut self.state {
            Some(c) => c,
            None => {
                return Err(String::from_str("Chat not exists"));
            },
        };
        let ghost c0 = *state;
        let mut new_set = IdSet::new();
        let n = participants_ids.len();
        let mut i: usize = 0;
        while i < n
            invariant
                i <= n,
                n == participants_ids@.len(),
                new_set.wf(),
                *state == c0,
                c0.wf(),
                forall|x: Seq<char>|
                    #[trigger] has_id(new_set@, x) == (!has_id(c0.participants@, x) && exists|
                        j: int,
                    | 0 <= j < i && participants_ids@[j]@ == x),
            decreases n - i,
        {
            let ghost a0 = new_set@;
            let p = &participants_ids[i];
            if !state.participants.contains(p.as_str()) {
                new_set.insert(p.clone());
            }
            proof {
                assert forall|x: Seq<char>| #[trigger] has_id(new_set@, x) implies (!has_id(
                    c0.participants@,
                    x,
                ) && exists|j: int| 0 <= j < i + 1 && participants_ids@[j]@ == x) by {
                    if !has_id(a0, x) {
                        assert(participants_ids@[i as int]@ == x);
                    }
                }
                assert forall|x: Seq<char>|
                    (!has_id(c0.participants@, x) && exists|j: int|
                        0 <= j < i + 1 && participants_ids@[j]@ == x) implies #[trigger] has_id(
                    new_set@,
                    x,
                ) by {
                    let j = choose|j: int| 0 <= j < i + 1 && participants_ids@[j]@ == x;
                    if j < i {
                        assert(has_id(a0, x));
                    }
                }
            }
            i = i + 1;
        }
        proof {
            assert forall|x: Seq<char>| #[trigger] has_id(new_set@, x) == (has_id(
                participants_ids@,
                x,
            ) && !has_id(c0.participants@, x)) by {
                lemma_has_id_exists(participants_ids@, x);
            }
        }
        if new_set.is_empty() {
            proof {
                assert forall|x: Seq<char>| has_id(participants_ids@, x) implies has_id(
                    c0.participants@,
                    x,
                ) by {
                    if !has_id(c0.participants@, x) {
                        lemma_id_index_props(new_set@, x);
                        assert(id_index(new_set@, x) == -1);
                        assert(!has_id(new_set@, x));
                    }
                }
            }
            return Err(String::from_str("No new participants"));
        }
        proof {
            assert(exists|x: Seq<char>|
                has_id(participants_ids@, x) && !has_id(c0.participants@, x)) by {
                lemma_has_id_all_members(new_set@, 0);
            }
        }
        let updated = chat_updated_fanout(&state.chat_id, &state.participants, now);
        let added = chat_added_fanout(&state.chat_id, &state.created_by, now, &new_set);
        let m = new_set.len();
        let mut k: usize = 0;
        let ghost ps0 = state.participants@;
        while k < m
            invariant
                k <= m,
                m == new_set@.len(),
                state.participants.wf(),
                state.chat_id == c0.chat_id,
                state.created_by == c0.created_by,
                state.created_at == c0.created_at,
                state.updated_at == c0.updated_at,
                state.messages@ == c0.messages@,
                c0.participants@ == ps0,
                forall|x: Seq<char>|
                    #[trigger] has_id(state.participants@, x) == (has_id(ps0, x) || exists|j: int|
                        0 <= j < k && new_set@[j]@ == x),
            decreases m - k,
        {
            let ghost b0 = state.participants@;
            state.participants.insert(new_set.at(k).clone());
            proof {
                assert forall|x: Seq<char>| #[trigger] has_id(state.participants@, x) implies (
                has_id(ps0, x) || exists|j: int| 0 <= j < k + 1 && new_set@[j]@ == x) by {
                    if !has_id(b0, x) {
                        assert(new_set@[k as int]@ == x);
                    }
                }
                assert forall|x: Seq<char>|
                    (has_id(ps0, x) || exists|j: int|
                        0 <= j < k + 1 && new_set@[j]@ == x) implies #[trigger] has_id(
                    state.participants@,
                    x,
                ) by {
                    if has_id(ps0, x) {
                        assert(has_id(b0, x));
                    } else {
                        let j = choose|j: int| 0 <= j < k + 1 && new_set@[j]@ == x;
                        if j < k {
                            assert(has_id(b0, x));
                        }
                    }
                }
            }
            k = k + 1;
        }
        state.updated_at = now;
        proof {
            assert forall|x: Seq<char>| #[trigger] has_id(state.participants@, x) == (has_id(
                c0.participants@,
                x,
            ) || has_id(participants_ids@, x)) by {
                lemma_has_id_exists(new_set@, x);
                if has_id(participants_ids@, x) && has_id(c0.participants@, x) {
                }
            }
        }
        Ok(ChatFanout { added, updated })
    }

    /// Append a message under a freshly minted id; fails when the chat
    /// does not exist or is full.  Every participant is notified of the
    /// update.
    pub fn add_message(&mut self, user_id: String, content: String, now: u64) -> (r: Result<
        (String, Vec<ChatUpdated>),
        String,
    >)
        requires
            old(self).wf(),
        ensures
            final(self).wf(),
            final(self).id == old(self).id,
            old(self).state is None ==> r is Err && r->Err_0@ == "Chat not exists"@ && *final(self)
                == *old(self),
            old(self).state is Some && old(self).state->0.messages@.len() >= MAX_CHAT_LENGTH as int
                ==> r is Err && r->Err_0@ == "Max chat length"@ && *final(self) == *old(self),
            old(self).state is Some && old(self).state->0.messages@.len() < MAX_CHAT_LENGTH as int
                ==> r is Ok && final(self).state is Some && ({
                let c0 = old(self).state->0;
                let c1 = final(self).state->0;
                let id = r->Ok_0.0;
                let fan = r->Ok_0.1;
                &&& c1.messages@ == c0.messages@.push(c1.messages@.last())
                &&& ({
                    let msg = c1.messages@.last();
                    &&& msg.message_id@ == id@
                    &&& msg.content == content
                    &&& msg.created_by == user_id
                    &&& msg.likes@.len() == 0
                    &&& msg.created_at == now
                    &&& msg.updated_at == now
                })
                &&& c1.updated_at == now
                &&& c1.chat_id == c0.chat_id
                &&& c1.created_by == c0.created_by
                &&& c1.participants@ == c0.participants@
                &&& c1.created_at == c0.created_at
                &&& fan@.len() == c0.participants@.len()
                &&& forall|i: int|
                    0 <= i < fan@.len() ==> (#[trigger] fan@[i]).target_user_id@
                        == c0.participants@[i]@ && fan@[i].chat_id@ == c0.chat_id@
                        && fan@[i].updated_at == now
            }),
    {
        let state = match &mut self.state {
            Some(c) => c,
            None => {
                return Err(String::from_str("Chat not exists"));
            },
        };
        if state.messages.len() >= MAX_CHAT_LENGTH {
            return Err(String::from_str("Max chat length"));
        }
        let message_id = crate::idgen::new_uuid();
        let id = state.add_message(user_id, content, message_id, now);
        let fan = chat_updated_fanout(&state.chat_id, &state.participants, now);
        Ok((id, fan))
    }

    /// Remove a message by id; fails when the chat does not exist or the
    /// message is unknown.  Every participant is notified of the update.
    pub fn remove_message(&mut self, message_id: String, now: u64) -> (r: Result<
        Vec<ChatUpdated>,
        String,
    >)
        requires
            old(self).wf(),
        ensures
            final(self).wf(),
            final(self).id == old(self).id,
            old(self).state is None ==> r is Err && r->Err_0@ == "Chat not exists"@ && *final(self)
                == *old(self),
            old(self).state is Some && !has_msg(old(self).state->0.messages@, message_id@) ==> r
                is Err && r->Err_0@ == "Message not found"@,
            old(self).state is Some && has_msg(old(self).state->0.messages@, message_id@) ==> r
                is Ok && final(self).state is Some && ({
                let c0 = old(self).state->0;
                let c1 = final(self).state->0;
                let fan = r->Ok_0;
                &&& c1.messages@ == without_msg(c0.messages@, message_id@)
                &&& c1.updated_at == now
                &&& c1.chat_id == c0.chat_id
                &&& c1.created_by == c0.created_by
                &&& c1.participants@ == c0.participants@
                &&& c1.created_at == c0.created_at
                &&& fan@.len() == c0.participants@.len()
                &&& forall|i: int|
                    0 <= i < fan@.len() ==> (#[trigger] fan@[i]).target_user_id@
                        == c0.participants@[i]@ && fan@[i].chat_id@ == c0.chat_id@
                        && fan@[i].updated_at == now
            }),
    {
        let state = match &mut self.state {
            Some(c) => c,
            None => {
                return Err(String::from_str("Chat not exists"));
            },
        };
        if state.remove_message(message_id, now) {
            let fan = chat_updated_fanout(&state.chat_id, &state.participants, now);
            Ok(fan)
        } else {
            Err(String::from_str("Message not found"))
        }
    }

    /// Record (or replace) a like on a message; fails when the chat does not
    /// exist or the message is unknown.  Every participant is notified.
    pub fn set_message_like(
        &mut self,
        message_id: String,
        user_id: String,
        like_type: LikeType,
        now: u64,
    ) -> (r: Result<Vec<ChatUpdated>, String>)
        requires
            old(self).wf(),
        ensures
            final(self).wf(),
            final(self).id == old(self).id,
            old(self).state is None ==> r is Err && r->Err_0@ == "Chat not exists"@ && *final(self)
                == *old(self),
            old(self).state is Some && !has_msg(old(self).state->0.messages@, message_id@) ==> r
                is Err && r->Err_0@ == "Message not found"@ && *final(self) == *old(self),
            old(self).state is Some && has_msg(old(self).state->0.messages@, message_id@) ==> r
                is Ok && final(self).state is Some && ({
                let c0 = old(self).state->0;
                let c1 = final(self).state->0;
                let fan = r->Ok_0;
                let i = msg_index(c0.messages@, message_id@);
                let m0 = c0.messages@[i];
                let m1 = c1.messages@[i];
                &&& c1.messages@ == c0.messages@.update(i, m1)
                &&& has_key(m1.likes@, user_id@)
                &&& val_of(m1.likes@, user_id@) == like_type
                &&& forall|x: Seq<char>|
                    x != user_id@ ==> #[trigger] has_key(m1.likes@, x) == has_key(m0.likes@, x)
                &&& m1.likes@.len() == m0.likes@.len() + (if has_key(m0.likes@, user_id@) {
                    0int
                } else {
                    1int
                })
                &&& m1.updated_at == now
                &&& c1.updated_at == now
                &&& c1.participants@ == c0.participants@
                &&& c1.chat_id == c0.chat_id
                &&& fan@.len() == c0.participants@.len()
                &&& forall|k: int|
                    0 <= k < fan@.len() ==> (#[trigger] fan@[k]).target_user_id@
                        == c0.participants@[k]@ && fan@[k].chat_id@ == c0.chat_id@
                        && fan@[k].updated_at == now
            }),
    {
        let state = match &mut self.state {
            Some(c) => c,
            None => {
                return Err(String::from_str("Chat not exists"));
            },
        };
        if state.set_message_like(message_id, user_id, like_type, now) {
            let fan = chat_updated_fanout(&state.chat_id, &state.participants, now);
            Ok(fan)
        } else {
            Err(String::from_str("Message not found"))
        }
    }

    /// Drop a user's like from a message.  Fails only when the chat or the
    /// message is missing; a like that was never there is a silent success
    /// that changes and notifies nothing.
    pub fn remove_message_like(&mut self, message_id: String, user_id: String, now: u64) -> (r:
        Result<Vec<ChatUpdated>, String>)
        requires
            old(self).wf(),
        ensures
            final(self).wf(),
            final(self).id == old(self).id,
            old(self).state is None ==> r is Err && r->Err_0@ == "Chat not exists"@ && *final(self)
                == *old(self),
            old(self).state is Some && !has_msg(old(self).state->0.messages@, message_id@) ==> r
                is Err && r->Err_0@ == "Message not found"@ && *final(self) == *old(self),
            old(self).state is Some && has_msg(old(self).state->0.messages@, message_id@) ==> r
                is Ok && final(self).state is Some && ({
                let c0 = old(self).state->0;
                let c1 = final(self).state->0;
                let fan = r->Ok_0;
                let i = msg_index(c0.messages@, message_id@);
                let m0 = c0.messages@[i];
                let m1 = c1.messages@[i];
                let had = has_key(m0.likes@, user_id@);
                &&& c1.messages@ == c0.messages@.update(i, m1)
                &&& !has_key(m1.likes@, user_id@)
                &&& forall|x: Seq<char>|
                    x != user_id@ ==> #[trigger] has_key(m1.likes@, x) == has_key(m0.likes@, x)
                &&& m1.likes@.len() == m0.likes@.len() - (if had {
                    1int
                } else {
                    0int
                })
                &&& (had ==> m1.updated_at == now && c1.updated_at == now && fan@.len()
                    == c0.participants@.len())
                &&& (!had ==> m1.updated_at == m0.updated_at && c1.updated_at == c0.updated_at
                    && fan@.len() == 0)
                &&& c1.participants@ == c0.participants@
                &&& c1.chat_id == c0.chat_id
                &&& forall|k: int|
                    0 <= k < fan@.len() ==> (#[trigger] fan@[k]).target_user_id@
                        == c0.participants@[k]@ && fan@[k].chat_id@ == c0.chat_id@
                        && fan@[k].updated_at == now
            }),
    {
        let state = match &mut self.state {
            Some(c) => c,
            None => {
                return Err(String::from_str("Chat not exists"));
            },
        };
        if !state.contains_message(message_id.as_str()) {
            return Err(String::from_str("Message not found"));
        }
        if state.remove_message_like(message_id, user_id, now) {
            let fan = chat_updated_fanout(&state.chat_id, &state.participants, now);
            Ok(fan)
        } else {
            Ok(Vec::new())
        }
    }
}

} // verus!
