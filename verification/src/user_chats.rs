//! Per-user list of chats the user takes part in: reference records kept
//! consistent by inbound "chat added" / "chat updated" triggers, plus the
//! matcher that view aggregators use to filter full chats.

use vstd::prelude::*;
use vstd::string::*;
use crate::chat::Chat;
use crate::idmap::{has_id, lemma_has_id_exists, lemma_id_index_props, IdSet};
use crate::query::{
    spec_text_exact_matches, spec_text_matches, text_exact_matches, text_matches, Query,
};
use crate::strutil::str_eq;

verus! {

/// Pointer to a chat, with its reference timestamps.
#[derive(Debug)]
pub struct ChatRef {
    pub chat_id: String,
    pub created_at: u64,
    pub updated_at: u64,
}

impl ChatRef {
    pub fn new(chat_id: String, now: u64) -> (r: ChatRef)
        ensures
            r.chat_id == chat_id,
            r.created_at == now,
            r.updated_at == now,
    {
        ChatRef { chat_id, created_at: now, updated_at: now }
    }
}

/// First position of the reference with the given chat id, or -1.
pub open spec fn chat_ref_index(s: Seq<ChatRef>, id: Seq<char>) -> int
    decreases s.len(),
{
    if s.len() == 0 {
        -1
    } else if s[0].chat_id@ == id {
        0
    } else {
        let r = chat_ref_index(s.subrange(1, s.len() as int), id);
        if r < 0 {
            -1
        } else {
            1 + r
        }
    }
}

pub open spec fn has_chat_ref(s: Seq<ChatRef>, id: Seq<char>) -> bool {
    chat_ref_index(s, id) >= 0
}

pub proof fn lemma_chat_ref_index_props(s: Seq<ChatRef>, id: Seq<char>)
    ensures
        -1 <= chat_ref_index(s, id) < s.len(),
        chat_ref_index(s, id) >= 0 ==> s[chat_ref_index(s, id)].chat_id@ == id,
        chat_ref_index(s, id) == -1 ==> forall|j: int| 0 <= j < s.len() ==> s[j].chat_id@ != id,
    decreases s.len(),
{
    if s.len() == 0 {
    } else if s[0].chat_id@ == id {
    } else {
        let rest = s.subrange(1, s.len() as int);
        lemma_chat_ref_index_props(rest, id);
        if chat_ref_index(rest, id) >= 0 {
            assert(s[chat_ref_index(s, id)] == rest[chat_ref_index(rest, id)]);
        }
        if chat_ref_index(s, id) == -1 {
            assert forall|j: int| 0 <= j < s.len() implies s[j].chat_id@ != id by {
                if j >= 1 {
                    assert(s[j] == rest[j - 1]);
                }
            }
        }
    }
}

pub proof fn lemma_chat_ref_index_at(s: Seq<ChatRef>, id: Seq<char>, i: int)
    requires
        0 <= i <= s.len(),
        forall|j: int| 0 <= j < i ==> s[j].chat_id@ != id,
        i < s.len() ==> s[i].chat_id@ == id,
    ensures
        i < s.len() ==> chat_ref_index(s, id) == i,
        i == s.len() ==> chat_ref_index(s, id) == -1,
    decreases s.len(),
{
    if s.len() == 0 {
    } else if s[0].chat_id@ == id {
        assert(i == 0);
    } else {
        lemma_chat_ref_index_at(s.subrange(1, s.len() as int), id, i - 1);
    }
}

/// The chat index of one user.
pub struct UserChats {
    pub user_id: String,
    pub chats: Vec<ChatRef>,
    pub created_at: u64,
    pub updated_at: u64,
}

impl UserChats {
    pub fn new(user_id: String, now: u64) -> (r: UserChats)
        ensures
            r.user_id == user_id,
            r.chats@.len() == 0,
            r.created_at == now,
            r.updated_at == now,
    {
        UserChats { user_id, chats: Vec::new(), created_at: now, updated_at: now }
    }
}

/// What a chat index's "updates since" read hands back.
#[derive(Debug)]
pub struct UserChatsUpdates {
    pub user_id: String,
    pub chats: Vec<ChatRef>,
}

/// Instruction to a fresh Chat actor to initialize itself.
#[derive(Debug)]
pub struct InitChatTrigger {
    pub chat_id: String,
    pub participants: IdSet,
    pub created_by: String,
    pub created_at: u64,
}

/// Holds of references updated strictly after `since`.
pub open spec fn chat_updated_after(since: u64) -> spec_fn(ChatRef) -> bool {
    |c: ChatRef| c.updated_at > since
}

/// Two chat references carry the same data.
pub open spec fn chat_ref_like(a: ChatRef, b: ChatRef) -> bool {
    a.chat_id@ == b.chat_id@ && a.created_at == b.created_at && a.updated_at == b.updated_at
}

/// Position of the reference with the given chat id, if any.
fn find_chat_ref(chats: &Vec<ChatRef>, chat_id: &str) -> (r: Option<usize>)
    ensures
        r is Some <==> has_chat_ref(chats@, chat_id@),
        r is Some ==> r->0 == chat_ref_index(chats@, chat_id@) && r->0 < chats@.len(),
{
    let n = chats.len();
    let mut i: usize = 0;
    while i < n
        invariant
            i <= n,
            n == chats@.len(),
            forall|j: int| 0 <= j < i ==> chats@[j].chat_id@ != chat_id@,
        decreases n - i,
    {
        if str_eq(chats[i].chat_id.as_str(), chat_id) {
            proof {
                lemma_chat_ref_index_at(chats@, chat_id@, i as int);
            }
            return Some(i);
        }
        i = i + 1;
    }
    proof {
        lemma_chat_ref_index_at(chats@, chat_id@, n as int);
    }
    None
}

/// Durable UserChats actor: an optional `UserChats` state created lazily.
pub struct UserChatsActor {
    pub id: String,
    pub state: Option<UserChats>,
}

impl UserChatsActor {
    pub open spec fn wf(&self) -> bool {
        match self.state {
            Some(u) => u.user_id@ == self.id@,
            None => true,
        }
    }

    pub fn new(id: String) -> (r: UserChatsActor)
        ensures
            r.id == id,
            r.state is None,
            r.wf(),
    {
        UserChatsActor { id, state: None }
    }

    pub fn get_chats(&self) -> (r: &Option<UserChats>)
        ensures
            r == &self.state,
    {
        &self.state
    }

    fn state_mut(&mut self, now: u64) -> (r: &mut UserChats)
        requires
            old(self).wf(),
        ensures
            (match old(self).state {
                Some(u) => *r == u,
                None => r.user_id@ == old(self).id@ && r.chats@.len() == 0 && r.created_at == now
                    && r.updated_at == now,
            }),
            final(self).id == old(self).id,
            final(self).state == Some(*final(r)),
            r.user_id@ == old(self).id@,
    {
        if self.state.is_none() {
            self.state = Some(UserChats::new(self.id.clone(), now));
        }
        match &mut self.state {
            Some(u) => u,
            None => {
                proof {
                    assert(false);
                }
                unreached()
            },
        }
    }

    /// Mint a chat id for the given peers (the caller's own id is ignored),
    /// record the reference, and instruct the new Chat actor to initialize
    /// itself.  Fails when no other participant remains.
    pub fn create_chat(&mut self, participants_ids: Vec<String>, now: u64) -> (r: Result<
        (String, InitChatTrigger),
        String,
    >)
        requires
            old(self).wf(),
        ensures
            final(self).wf(),
            final(self).id == old(self).id,
            (forall|x: Seq<char>| has_id(participants_ids@, x) ==> x == old(self).id@) ==> r
                is Err && r->Err_0@ == "Chat must have at least 2 participants"@,
            (exists|x: Seq<char>| has_id(participants_ids@, x) && x != old(self).id@) ==> r is Ok
                && final(self).state is Some && ({
                let u1 = final(self).state->0;
                let pre_chats = (match old(self).state {
                    Some(u) => u.chats@,
                    None => Seq::<ChatRef>::empty(),
                });
                let id = r->Ok_0.0;
                let tg = r->Ok_0.1;
                &&& u1.user_id@ == old(self).id@
                &&& u1.chats@ == pre_chats.push(u1.chats@.last())
                &&& u1.chats@.last().chat_id@ == id@
                &&& u1.chats@.last().created_at == now
                &&& u1.chats@.last().updated_at == now
                &&& u1.updated_at == now
                &&& tg.chat_id@ == id@
                &&& tg.created_by@ == old(self).id@
                &&& tg.created_at == now
                &&& tg.participants.wf()
                &&& forall|x: Seq<char>|
                    #[trigger] has_id(tg.participants@, x) == (has_id(participants_ids@, x) && x
                        != old(self).id@)
            }),
    {
        let ghost my_id = self.id@;
        let mut others = IdSet::new();
        let n = participants_ids.len();
        let mut i: usize = 0;
        while i < n
            invariant
                i <= n,
                n == participants_ids@.len(),
                others.wf(),
                self.id@ == my_id,
                *self == *old(self),
                old(self).wf(),
                forall|x: Seq<char>|
                    #[trigger] has_id(others@, x) == (x != my_id && exists|j: int|
                        0 <= j < i && participants_ids@[j]@ == x),
            decreases n - i,
        {
            let ghost o0 = others@;
            let p = &participants_ids[i];
            if !str_eq(p.as_str(), self.id.as_str()) {
                others.insert(p.clone());
            }
            proof {
                assert forall|x: Seq<char>| #[trigger] has_id(others@, x) implies (x != my_id
                    && exists|j: int| 0 <= j < i + 1 && participants_ids@[j]@ == x) by {
                    if !has_id(o0, x) {
                        assert(participants_ids@[i as int]@ == x);
                    }
                }
                assert forall|x: Seq<char>|
                    (x != my_id && exists|j: int|
                        0 <= j < i + 1 && participants_ids@[j]@ == x) implies #[trigger] has_id(
                    others@,
                    x,
                ) by {
                    let j = choose|j: int| 0 <= j < i + 1 && participants_ids@[j]@ == x;
                    if j < i {
                        assert(has_id(o0, x));
                    }
                }
            }
            i = i + 1;
        }
        proof {
            assert forall|x: Seq<char>| #[trigger] has_id(others@, x) == (has_id(
                participants_ids@,
                x,
            ) && x != my_id) by {
                lemma_has_id_exists(participants_ids@, x);
            }
        }
        if others.is_empty() {
            proof {
                assert forall|x: Seq<char>| has_id(participants_ids@, x) implies x == my_id by {
                    if x != my_id {
                        lemma_id_index_props(others@, x);
                        assert(!has_id(others@, x));
                    }
                }
            }
            return Err(String::from_str("Chat must have at least 2 participants"));
        }
        proof {
            assert(exists|x: Seq<char>| has_id(participants_ids@, x) && x != my_id) by {
                crate::chat::lemma_has_id_all_members(others@, 0);
            }
        }
        let chat_id = crate::idgen::new_uuid();
        let state = self.state_mut(now);
        let trigger = InitChatTrigger {
            chat_id: chat_id.clone(),
            participants: others,
            created_by: state.user_id.clone(),
            created_at: now,
        };
        state.chats.push(ChatRef::new(chat_id.clone(), now));
        state.updated_at = now;
        Ok((chat_id, trigger))
    }

    /// Record a chat another user created; idempotent on the chat id, and
    /// an error when the creator is this user (its reference was recorded
    /// at creation).
    pub fn add_chat(&mut self, chat_id: String, created_by: String, created_at: u64) -> (r: Result<
        (),
        String,
    >)
        requires
            old(self).wf(),
        ensures
            final(self).wf(),
            final(self).id == old(self).id,
            created_by@ == old(self).id@ ==> r is Err && r->Err_0@
                == "Chat created by current user"@,
            created_by@ != old(self).id@ ==> r is Ok && final(self).state is Some && ({
                let pre_chats = (match old(self).state {
                    Some(u) => u.chats@,
                    None => Seq::<ChatRef>::empty(),
                });
                let u1 = final(self).state->0;
                &&& (has_chat_ref(pre_chats, chat_id@) ==> u1.chats@ == pre_chats)
                &&& (!has_chat_ref(pre_chats, chat_id@) ==> u1.chats@ == pre_chats.push(
                    u1.chats@.last(),
                ) && u1.chats@.last().chat_id@ == chat_id@ && u1.chats@.last().created_at
                    == created_at && u1.chats@.last().updated_at == created_at)
            }),
    {
        let state = self.state_mut(created_at);
        let ghost pre = *state;
        if str_eq(created_by.as_str(), state.user_id.as_str()) {
            return Err(String::from_str("Chat created by current user"));
        }
        match find_chat_ref(&state.chats, chat_id.as_str()) {
            Some(_) => Ok(()),
            None => {
                state.chats.push(ChatRef { chat_id, created_at, updated_at: created_at });
                if state.updated_at < created_at {
                    state.updated_at = created_at;
                }
                Ok(())
            },
        }
    }

    /// Move a chat reference's timestamp forward; fails when the chat is
    /// not in this index.  The index's own timestamp keeps the maximum.
    pub fn chat_updated(&mut self, chat_id: String, updated_at: u64, now: u64) -> (r: Result<
        (),
        String,
    >)
        requires
            old(self).wf(),
        ensures
            final(self).wf(),
            final(self).id == old(self).id,
            ({
                let pre_chats = (match old(self).state {
                    Some(u) => u.chats@,
                    None => Seq::<ChatRef>::empty(),
                });
                &&& (!has_chat_ref(pre_chats, chat_id@) ==> r is Err && r->Err_0@
                    == "Chat not found"@)
                &&& (has_chat_ref(pre_chats, chat_id@) ==> r is Ok && ({
                    let i = chat_ref_index(pre_chats, chat_id@);
                    let u1 = final(self).state->0;
                    &&& final(self).state is Some
                    &&& u1.chats@ == pre_chats.update(i, u1.chats@[i])
                    &&& u1.chats@[i].chat_id@ == chat_id@
                    &&& u1.chats@[i].created_at == pre_chats[i].created_at
                    &&& u1.chats@[i].updated_at == updated_at
                }))
            }),
    {
        let state = self.state_mut(now);
        let ghost pre = *state;
        match find_chat_ref(&state.chats, chat_id.as_str()) {
            Some(i) => {
                proof {
                    lemma_chat_ref_index_props(pre.chats@, chat_id@);
                }
                let c = &mut state.chats[i];
                c.updated_at = updated_at;
                if state.updated_at < updated_at {
                    state.updated_at = updated_at;
                }
                Ok(())
            },
            None => Err(String::from_str("Chat not found")),
        }
    }

    /// References updated strictly after `since`; `None` when the index
    /// was never materialized.
    pub fn get_updates(&self, updates_since: u64) -> (r: Option<UserChatsUpdates>)
        ensures
            r is Some <==> self.state is Some,
            r is Some ==> ({
                let u = self.state->0;
                let out = r->0;
                &&& out.user_id@ == u.user_id@
                &&& out.chats@.len() == u.chats@.filter(chat_updated_after(updates_since)).len()
                &&& forall|i: int|
                    0 <= i < out.chats@.len() ==> chat_ref_like(
                        #[trigger] out.chats@[i],
                        u.chats@.filter(chat_updated_after(updates_since))[i],
                    )
            }),
    {
        let state = match &self.state {
            Some(u) => u,
            None => {
                return None;
            },
        };
        let ghost s0 = state.chats@;
        let n = state.chats.len();
        let mut out: Vec<ChatRef> = Vec::new();
        let mut i: usize = 0;
        proof {
            reveal(Seq::filter);
            assert(s0.subrange(0, 0) =~= Seq::<ChatRef>::empty());
            assert(Seq::<ChatRef>::empty().filter(chat_updated_after(updates_since))
                =~= Seq::<ChatRef>::empty());
        }
        while i < n
            invariant
                i <= n,
                n == s0.len(),
                s0 == state.chats@,
                out@.len() == s0.subrange(0, i as int).filter(
                    chat_updated_after(updates_since),
                ).len(),
                forall|j: int|
                    0 <= j < out@.len() ==> chat_ref_like(
                        #[trigger] out@[j],
                        s0.subrange(0, i as int).filter(chat_updated_after(updates_since))[j],
                    ),
            decreases n - i,
        {
            proof {
                reveal(Seq::filter);
                let pre = s0.subrange(0, i as int);
                let cur = s0.subrange(0, i + 1);
                assert(cur.drop_last() =~= pre);
                assert(cur.last() == s0[i as int]);
            }
            let c = &state.chats[i];
            if c.updated_at > updates_since {
                out.push(
                    ChatRef {
                        chat_id: c.chat_id.clone(),
                        created_at: c.created_at,
                        updated_at: c.updated_at,
                    },
                );
            }
            i = i + 1;
        }
        proof {
            assert(s0.subrange(0, n as int) =~= s0);
        }
        Some(UserChatsUpdates { user_id: state.user_id.clone(), chats: out })
    }
}

/// One `field:value` filter as it applies to a chat.
pub open spec fn chat_filter_ok(field: Seq<char>, value: Seq<char>, c: Chat) -> bool {
    if field == "created-by"@ || field == "createdby"@ {
        spec_text_exact_matches(c.created_by@, value)
    } else if field == "participants"@ {
        exists|i: int|
            0 <= i < c.participants@.len() && spec_text_exact_matches(
                (#[trigger] c.participants@[i])@,
                value,
            )
    } else {
        false
    }
}

/// One bare term as it applies to a chat: in the creator's id, or exactly
/// one of the participants.
pub open spec fn chat_term_ok(term: Seq<char>, c: Chat) -> bool {
    ||| spec_text_matches(c.created_by@, term)
    ||| exists|i: int|
        0 <= i < c.participants@.len() && spec_text_exact_matches(
            (#[trigger] c.participants@[i])@,
            term,
        )
}

pub open spec fn spec_chat_matches(q: Query, c: Chat) -> bool {
    &&& forall|i: int|
        0 <= i < q.filters_view().len() ==> #[trigger] chat_filter_ok(
            q.filters_view()[i].0,
            q.filters_view()[i].1,
            c,
        )
    &&& forall|i: int|
        0 <= i < q.terms_view().len() ==> #[trigger] chat_term_ok(q.terms_view()[i], c)
}

fn participants_exact_match(c: &Chat, value: &str) -> (r: bool)
    ensures
        r == exists|i: int|
            0 <= i < c.participants@.len() && spec_text_exact_matches(
                (#[trigger] c.participants@[i])@,
                value@,
            ),
{
    let n = c.participants.len();
    let mut i: usize = 0;
    while i < n
        invariant
            i <= n,
            n == c.participants@.len(),
            forall|j: int|
                0 <= j < i ==> !spec_text_exact_matches((#[trigger] c.participants@[j])@, value@),
        decreases n - i,
    {
        if text_exact_matches(c.participants.at(i).as_str(), value) {
            return true;
        }
        i = i + 1;
    }
    false
}

/// Evaluates a parsed query against full chats.
pub struct ChatQueryMatcher {
    query: Query,
}

impl ChatQueryMatcher {
    pub closed spec fn query_spec(&self) -> Query {
        self.query
    }

    pub fn new(query: &str) -> (r: ChatQueryMatcher)
        ensures
            r.query_spec().terms_view() == crate::query::terms_of(
                crate::query::tokens_of(query@),
            ),
            r.query_spec().filters_view() == crate::query::filters_of(
                crate::query::tokens_of(query@),
            ),
    {
        ChatQueryMatcher { query: Query::new(query) }
    }

    /// Whether the chat matches the query.
    pub fn matches_chat(&self, chat: Chat) -> (r: bool)
        ensures
            r == spec_chat_matches(self.query_spec(), chat),
    {
        let nf = self.query.field_filters.len();
        let mut i: usize = 0;
        while i < nf
            invariant
                i <= nf,
                nf == self.query.field_filters@.len(),
                forall|j: int|
                    0 <= j < i ==> #[trigger] chat_filter_ok(
                        self.query.filters_view()[j].0,
                        self.query.filters_view()[j].1,
                        chat,
                    ),
            decreases nf - i,
        {
            let field = &self.query.field_filters[i].0;
            let value = &self.query.field_filters[i].1;
            let ok: bool = if str_eq(field.as_str(), "created-by") || str_eq(
                field.as_str(),
                "createdby",
            ) {
                text_exact_matches(chat.created_by.as_str(), value.as_str())
            } else if str_eq(field.as_str(), "participants") {
                participants_exact_match(&chat, value.as_str())
            } else {
                false
            };
            if !ok {
                proof {
                    assert(!chat_filter_ok(
                        self.query.filters_view()[i as int].0,
                        self.query.filters_view()[i as int].1,
                        chat,
                    ));
                }
                return false;
            }
            i = i + 1;
        }
        let nt = self.query.terms.len();
        let mut k: usize = 0;
        while k < nt
            invariant
                k <= nt,
                nt == self.query.terms@.len(),
                i == self.query.field_filters@.len(),
                forall|j: int|
                    0 <= j < i ==> #[trigger] chat_filter_ok(
                        self.query.filters_view()[j].0,
                        self.query.filters_view()[j].1,
                        chat,
                    ),
                forall|j: int|
                    0 <= j < k ==> #[trigger] chat_term_ok(self.query.terms_view()[j], chat),
            decreases nt - k,
        {
            let term = &self.query.terms[k];
            let ok = text_matches(chat.created_by.as_str(), term.as_str())
                || participants_exact_match(&chat, term.as_str());
            if !ok {
                proof {
                    assert(!chat_term_ok(self.query.terms_view()[k as int], chat));
                }
                return false;
            }
            k = k + 1;
        }
        true
    }
}

} // verus!
