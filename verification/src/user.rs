//! User entity: profile fields and the per-user connection map.  Edges are
//! stored once per endpoint; a successful connect or disconnect also emits a
//! mirror trigger that carries the opposite connection kind to the peer.

use vstd::prelude::*;
use vstd::string::*;
use crate::common::UserConnectionType;
use crate::idmap::{
    has_key, key_index, lemma_key_index_props, lemma_key_index_update, unique_keys, val_of, IdMap,
};
use crate::query::{
    opt_text_exact_matches, opt_text_matches, opt_view, spec_opt_text_exact_matches,
    spec_opt_text_matches, spec_text_exact_matches, spec_text_matches, text_exact_matches,
    text_matches, Query,
};
use crate::strutil::str_eq;

verus! {

/// Whether `email_address::EmailAddress` accepts the given characters as an
/// email address; a pure grammar check, a function of the characters alone.
pub uninterp spec fn valid_email(s: Seq<char>) -> bool;

/// Relies on `email_address::EmailAddress::is_valid`: a pure syntax check
/// that depends on the characters alone.
#[verifier::external_body]
fn check_email(s: &str) -> (r: bool)
    ensures
        r == valid_email(s@),
{
    email_address::EmailAddress::is_valid(s)
}

/// Small set of connection kinds, without duplicates.
pub struct ConnectionTypes {
    types: Vec<UserConnectionType>,
}

impl View for ConnectionTypes {
    type V = Seq<UserConnectionType>;

    closed spec fn view(&self) -> Seq<UserConnectionType> {
        self.types@
    }
}

proof fn lemma_types_remove(s: Seq<UserConnectionType>, i: int)
    requires
        0 <= i < s.len(),
        forall|a: int, b: int| 0 <= a < b < s.len() ==> s[a] != s[b],
    ensures
        !s.remove(i).contains(s[i]),
        forall|x: UserConnectionType| x != s[i] ==> #[trigger] s.remove(i).contains(x)
            == s.contains(x),
        forall|a: int, b: int| 0 <= a < b < s.remove(i).len() ==> s.remove(i)[a] != s.remove(i)[b],
{
    let t = s.remove(i);
    s.remove_ensures(i);
    assert forall|j: int| 0 <= j < t.len() implies t[j] != s[i] by {
        if j < i {
            assert(t[j] == s[j]);
        } else {
            assert(t[j] == s[j + 1]);
        }
    }
    assert forall|x: UserConnectionType| x != s[i] implies #[trigger] t.contains(x) == s.contains(
        x,
    ) by {
        if t.contains(x) {
            let j = choose|j: int| 0 <= j < t.len() && t[j] == x;
            if j < i {
                assert(s[j] == x);
            } else {
                assert(s[j + 1] == x);
            }
        }
        if s.contains(x) {
            let j = choose|j: int| 0 <= j < s.len() && s[j] == x;
            if j < i {
                assert(t[j] == x);
            } else {
                assert(t[j - 1] == x);
            }
        }
    }
    assert forall|a: int, b: int| 0 <= a < b < t.len() implies t[a] != t[b] by {
        let a0: int = if a < i {
            a
        } else {
            a + 1
        };
        let b0: int = if b < i {
            b
        } else {
            b + 1
        };
        assert(t[a] == s[a0]);
        assert(t[b] == s[b0]);
    }
}

impl ConnectionTypes {
    /// No kind occurs twice.
    pub open spec fn wf(&self) -> bool {
        forall|a: int, b: int| 0 <= a < b < self@.len() ==> self@[a] != self@[b]
    }

    pub fn singleton(t: UserConnectionType) -> (r: ConnectionTypes)
        ensures
            r@ == seq![t],
            r.wf(),
    {
        let mut types: Vec<UserConnectionType> = Vec::new();
        types.push(t);
        let r = ConnectionTypes { types };
        proof {
            assert(r@ =~= seq![t]);
        }
        r
    }

    pub fn len(&self) -> (r: usize)
        ensures
            r == self@.len(),
    {
        self.types.len()
    }

    pub fn is_empty(&self) -> (r: bool)
        ensures
            r == (self@.len() == 0),
    {
        self.types.is_empty()
    }

    pub fn contains(&self, t: UserConnectionType) -> (r: bool)
        ensures
            r == self@.contains(t),
    {
        let n = self.types.len();
        let mut i: usize = 0;
        while i < n
            invariant
                i <= n,
                n == self@.len(),
                forall|j: int| 0 <= j < i ==> self@[j] != t,
            decreases n - i,
        {
            if self.types[i] == t {
                return true;
            }
            i = i + 1;
        }
        false
    }

    /// Set-style insert; reports whether the kind was new.
    pub fn insert(&mut self, t: UserConnectionType) -> (added: bool)
        requires
            old(self).wf(),
        ensures
            added == !old(self)@.contains(t),
            final(self)@.contains(t),
            forall|x: UserConnectionType|
                x != t ==> #[trigger] final(self)@.contains(x) == old(self)@.contains(x),
            final(self)@.len() == old(self)@.len() + (if added {
                1int
            } else {
                0int
            }),
            !added ==> final(self)@ == old(self)@,
            final(self).wf(),
    {
        let ghost s0 = self@;
        if self.contains(t) {
            false
        } else {
            self.types.push(t);
            proof {
                assert(self@[s0.len() as int] == t);
                assert forall|x: UserConnectionType| x != t implies #[trigger] self@.contains(x)
                    == s0.contains(x) by {
                    if self@.contains(x) {
                        let j = choose|j: int| 0 <= j < self@.len() && self@[j] == x;
                        assert(s0[j] == x);
                    }
                    if s0.contains(x) {
                        let j = choose|j: int| 0 <= j < s0.len() && s0[j] == x;
                        assert(self@[j] == x);
                    }
                }
                assert forall|a: int, b: int| 0 <= a < b < self@.len() implies self@[a]
                    != self@[b] by {
                    if b < s0.len() {
                        assert(s0[a] != s0[b]);
                    } else {
                        assert(self@[b] == t);
                        assert(self@[a] == s0[a]);
                        assert(s0.contains(s0[a]));
                    }
                }
            }
            true
        }
    }

    /// Set-style removal; reports whether the kind was present.
    pub fn remove(&mut self, t: UserConnectionType) -> (removed: bool)
        requires
            old(self).wf(),
        ensures
            removed == old(self)@.contains(t),
            !final(self)@.contains(t),
            forall|x: UserConnectionType|
                x != t ==> #[trigger] final(self)@.contains(x) == old(self)@.contains(x),
            final(self)@.len() == old(self)@.len() - (if removed {
                1int
            } else {
                0int
            }),
            !removed ==> final(self)@ == old(self)@,
            final(self).wf(),
    {
        let ghost s0 = self@;
        let n = self.types.len();
        let mut i: usize = 0;
        while i < n
            invariant
                i <= n,
                n == self@.len(),
                self@ == s0,
                s0 == old(self)@,
                old(self).wf(),
                forall|j: int| 0 <= j < i ==> self@[j] != t,
            decreases n - i,
        {
            if self.types[i] == t {
                proof {
                    assert(s0[i as int] == t);
                    assert(s0.contains(t));
                }
                self.types.remove(i);
                proof {
                    lemma_types_remove(s0, i as int);
                }
                return true;
            }
            i = i + 1;
        }
        false
    }
}

/// One recorded peer: its id, the kinds the edge carries, and timestamps.
pub struct ConnectedUser {
    pub user_id: String,
    pub connection_types: ConnectionTypes,
    pub created_at: u64,
    pub updated_at: u64,
}

impl ConnectedUser {
    pub open spec fn wf(&self) -> bool {
        self.connection_types.wf()
    }

    pub fn new(user_id: String, connection_type: UserConnectionType, now: u64) -> (r:
        ConnectedUser)
        ensures
            r.user_id == user_id,
            r.connection_types@ == seq![connection_type],
            r.created_at == now,
            r.updated_at == now,
            r.wf(),
    {
        ConnectedUser {
            user_id,
            connection_types: ConnectionTypes::singleton(connection_type),
            created_at: now,
            updated_at: now,
        }
    }

    /// Record one more kind on this edge; refreshes `updated_at` only when
    /// the kind is new.
    pub fn add_connection_type(&mut self, connection_type: UserConnectionType, now: u64)
        requires
            old(self).wf(),
        ensures
            final(self).wf(),
            final(self).user_id == old(self).user_id,
            final(self).created_at == old(self).created_at,
            final(self).connection_types@.contains(connection_type),
            forall|x: UserConnectionType|
                x != connection_type ==> #[trigger] final(self).connection_types@.contains(x)
                    == old(self).connection_types@.contains(x),
            old(self).connection_types@.contains(connection_type) ==> final(self).connection_types@
                == old(self).connection_types@ && final(self).updated_at == old(self).updated_at,
            !old(self).connection_types@.contains(connection_type) ==> final(self).updated_at
                == now && final(self).connection_types@.len() == old(self).connection_types@.len()
                + 1,
    {
        if self.connection_types.insert(connection_type) {
            self.updated_at = now;
        }
    }

    /// Drop one kind from this edge; refreshes `updated_at` only when the
    /// kind was present.
    pub fn remove_connection_type(&mut self, connection_type: &UserConnectionType, now: u64)
        requires
            old(self).wf(),
        ensures
            final(self).wf(),
            final(self).user_id == old(self).user_id,
            final(self).created_at == old(self).created_at,
            !final(self).connection_types@.contains(*connection_type),
            forall|x: UserConnectionType|
                x != *connection_type ==> #[trigger] final(self).connection_types@.contains(x)
                    == old(self).connection_types@.contains(x),
            !old(self).connection_types@.contains(*connection_type)
                ==> final(self).connection_types@ == old(self).connection_types@
                && final(self).updated_at == old(self).updated_at,
            old(self).connection_types@.contains(*connection_type) ==> final(self).updated_at
                == now && final(self).connection_types@.len() == old(self).connection_types@.len()
                - 1,
    {
        if self.connection_types.remove(*connection_type) {
            self.updated_at = now;
        }
    }

    pub fn has_connection_type(&self, connection_type: &UserConnectionType) -> (r: bool)
        ensures
            r == self.connection_types@.contains(*connection_type),
    {
        self.connection_types.contains(*connection_type)
    }
}

/// User state: profile fields plus the map of connected peers.
pub struct User {
    pub user_id: String,
    pub name: Option<String>,
    pub email: Option<String>,
    pub connected_users: IdMap<ConnectedUser>,
    pub created_at: u64,
    pub updated_at: u64,
}

/// The peer is recorded at all.
pub open spec fn conn_has(u: User, peer: Seq<char>) -> bool {
    has_key(u.connected_users@, peer)
}

/// The kinds recorded for a peer (meaningful when `conn_has` holds).
pub open spec fn conn_types(u: User, peer: Seq<char>) -> Seq<UserConnectionType> {
    val_of(u.connected_users@, peer).connection_types@
}

/// The edge to `peer` carries kind `t`.
pub open spec fn connected_with(u: User, peer: Seq<char>, t: UserConnectionType) -> bool {
    conn_has(u, peer) && conn_types(u, peer).contains(t)
}

/// What a connect call does: a self connection is a rejected no-op; an
/// already-recorded kind is a no-op; otherwise the kind is recorded for the
/// peer (a fresh entry when the peer was unknown) and nothing else moves.
pub open spec fn connect_rel(
    pre: User,
    post: User,
    peer: Seq<char>,
    t: UserConnectionType,
    now: u64,
    r: bool,
) -> bool {
    &&& (peer == pre.user_id@ ==> post == pre && !r)
    &&& (peer != pre.user_id@ && connected_with(pre, peer, t) ==> post == pre && !r)
    &&& (peer != pre.user_id@ && !connected_with(pre, peer, t) ==> {
        &&& r
        &&& post.user_id == pre.user_id
        &&& post.name == pre.name
        &&& post.email == pre.email
        &&& post.created_at == pre.created_at
        &&& post.updated_at == now
        &&& connected_with(post, peer, t)
        &&& forall|x: Seq<char>|
            x != peer ==> #[trigger] conn_has(post, x) == conn_has(pre, x)
        &&& forall|x: Seq<char>|
            x != peer && conn_has(pre, x) ==> #[trigger] val_of(post.connected_users@, x)
                == val_of(pre.connected_users@, x)
        &&& forall|ct: UserConnectionType|
            ct != t ==> #[trigger] conn_types(post, peer).contains(ct) == (conn_has(pre, peer)
                && conn_types(pre, peer).contains(ct))
        &&& conn_types(post, peer).len() == (if conn_has(pre, peer) {
            conn_types(pre, peer).len() as int + 1
        } else {
            1int
        })
        &&& post.connected_users@.len() == pre.connected_users@.len() + (if conn_has(pre, peer) {
            0int
        } else {
            1int
        })
    })
}

/// What a disconnect call does: a self disconnection is a rejected no-op; a
/// kind that is not recorded is a no-op; otherwise just that kind is
/// dropped, and the whole entry goes once its kind set would become empty.
pub open spec fn disconnect_rel(
    pre: User,
    post: User,
    peer: Seq<char>,
    t: UserConnectionType,
    now: u64,
    r: bool,
) -> bool {
    &&& (peer == pre.user_id@ ==> post == pre && !r)
    &&& (peer != pre.user_id@ && !connected_with(pre, peer, t) ==> post == pre && !r)
    &&& (peer != pre.user_id@ && connected_with(pre, peer, t) ==> {
        &&& r
        &&& post.user_id == pre.user_id
        &&& post.name == pre.name
        &&& post.email == pre.email
        &&& post.created_at == pre.created_at
        &&& post.updated_at == now
        &&& !connected_with(post, peer, t)
        &&& forall|x: Seq<char>|
            x != peer ==> #[trigger] conn_has(post, x) == conn_has(pre, x)
        &&& forall|x: Seq<char>|
            x != peer && conn_has(pre, x) ==> #[trigger] val_of(post.connected_users@, x)
                == val_of(pre.connected_users@, x)
        &&& (conn_types(pre, peer).len() == 1 ==> !conn_has(post, peer)
            && post.connected_users@.len() == pre.connected_users@.len() - 1)
        &&& (conn_types(pre, peer).len() > 1 ==> {
            &&& conn_has(post, peer)
            &&& forall|ct: UserConnectionType|
                ct != t ==> #[trigger] conn_types(post, peer).contains(ct) == conn_types(
                    pre,
                    peer,
                ).contains(ct)
            &&& conn_types(post, peer).len() == conn_types(pre, peer).len() - 1
            &&& post.connected_users@.len() == pre.connected_users@.len()
        })
    })
}

impl User {
    /// Entries are keyed by their peer id, no peer occurs twice, no entry
    /// points at the user itself, and every kind set is well-formed and
    /// non-empty.
    pub open spec fn wf(&self) -> bool {
        &&& unique_keys(self.connected_users@)
        &&& forall|i: int|
            0 <= i < self.connected_users@.len() ==> {
                &&& (#[trigger] self.connected_users@[i]).key@
                    == self.connected_users@[i].val.user_id@
                &&& self.connected_users@[i].key@ != self.user_id@
                &&& self.connected_users@[i].val.wf()
                &&& self.connected_users@[i].val.connection_types@.len() >= 1
            }
    }

    pub fn new(user_id: String, now: u64) -> (r: User)
        ensures
            r.user_id == user_id,
            r.name is None,
            r.email is None,
            r.connected_users@.len() == 0,
            r.created_at == now,
            r.updated_at == now,
            r.wf(),
    {
        User {
            user_id,
            name: None,
            email: None,
            connected_users: IdMap::new(),
            created_at: now,
            updated_at: now,
        }
    }

    pub fn set_name(&mut self, name: Option<String>, now: u64)
        requires
            old(self).wf(),
        ensures
            final(self).wf(),
            final(self).name == name,
            final(self).updated_at == now,
            final(self).user_id == old(self).user_id,
            final(self).email == old(self).email,
            final(self).connected_users@ == old(self).connected_users@,
            final(self).created_at == old(self).created_at,
    {
        self.name = name;
        self.updated_at = now;
    }

    /// Set or clear the email; an invalid address leaves the state unchanged
    /// and is reported to the caller.
    pub fn set_email(&mut self, email: Option<String>, now: u64) -> (r: Result<(), String>)
        requires
            old(self).wf(),
        ensures
            final(self).wf(),
            (match email {
                Some(ref e) => valid_email(e@),
                None => true,
            }) ==> {
                &&& r is Ok
                &&& final(self).email == email
                &&& final(self).updated_at == now
                &&& final(self).user_id == old(self).user_id
                &&& final(self).name == old(self).name
                &&& final(self).connected_users@ == old(self).connected_users@
                &&& final(self).created_at == old(self).created_at
            },
            !(match email {
                Some(ref e) => valid_email(e@),
                None => true,
            }) ==> r is Err && *final(self) == *old(self) && r->Err_0@ == "Invalid email"@,
    {
        if let Some(ref email_str) = email {
            if !check_email(email_str.as_str()) {
                return Err(String::from_str("Invalid email"));
            }
        }
        self.email = email;
        self.updated_at = now;
        Ok(())
    }

    /// Record a connection kind for a peer; reports whether anything changed.
    pub fn connect_user(
        &mut self,
        user_id: String,
        connection_type: UserConnectionType,
        now: u64,
    ) -> (r: bool)
        requires
            old(self).wf(),
        ensures
            final(self).wf(),
            connect_rel(*old(self), *final(self), user_id@, connection_type, now, r),
    {
        let ghost pre = *self;
        let ghost s0 = self.connected_users@;
        if str_eq(user_id.as_str(), self.user_id.as_str()) {
            false
        } else {
            match self.connected_users.index_of(user_id.as_str()) {
                Some(i) => {
                    proof {
                        lemma_key_index_props(s0, user_id@);
                    }
                    if self.connected_users.val_at(i).has_connection_type(&connection_type) {
                        false
                    } else {
                        let entry = self.connected_users.val_at_mut(i);
                        entry.add_connection_type(connection_type, now);
                        self.updated_at = now;
                        proof {
                            let s1 = self.connected_users@;
                            lemma_key_index_update(s0, i as int, s1[i as int]);
                            assert(key_index(s1, user_id@) == i as int);
                            assert(val_of(s1, user_id@) == s1[i as int].val);
                            assert(conn_types(*self, user_id@).contains(connection_type));
                            assert forall|x: Seq<char>|
                                x != user_id@ && conn_has(pre, x) implies #[trigger] val_of(
                                s1,
                                x,
                            ) == val_of(s0, x) by {
                                lemma_key_index_props(s0, x);
                            }
                            assert forall|a: int, b: int|
                                0 <= a < b < s1.len() implies s1[a].key@ != s1[b].key@ by {
                                assert(s0[a].key@ != s0[b].key@);
                            }
                            assert forall|j: int| 0 <= j < s1.len() implies (#[trigger] s1[j]).key@
                                == s1[j].val.user_id@ && s1[j].key@ != self.user_id@
                                && s1[j].val.wf() && s1[j].val.connection_types@.len() >= 1 by {
                                if j != i {
                                    assert(s1[j] == s0[j]);
                                }
                            }
                        }
                        true
                    }
                },
                None => {
                    let peer = ConnectedUser::new(user_id.clone(), connection_type, now);
                    let ghost p = peer;
                    self.connected_users.insert(user_id, peer);
                    self.updated_at = now;
                    proof {
                        let s1 = self.connected_users@;
                        assert(val_of(s1, p.user_id@) == p);
                        assert(p.connection_types@[0] == connection_type);
                        assert(conn_types(*self, p.user_id@).contains(connection_type));
                        assert forall|x: Seq<char>|
                            x != p.user_id@ && conn_has(pre, x) implies #[trigger] val_of(s1, x)
                            == val_of(s0, x) by {
                            lemma_key_index_props(s0, x);
                        }
                        assert forall|j: int| 0 <= j < s1.len() implies (#[trigger] s1[j]).key@
                            == s1[j].val.user_id@ && s1[j].key@ != self.user_id@ && s1[j].val.wf()
                            && s1[j].val.connection_types@.len() >= 1 by {
                            if j < s0.len() {
                                assert(s1[j] == s0[j]);
                            }
                        }
                    }
                    true
                },
            }
        }
    }

    /// Drop a connection kind for a peer; reports whether anything changed.
    pub fn disconnect_user(
        &mut self,
        user_id: String,
        connection_type: UserConnectionType,
        now: u64,
    ) -> (r: bool)
        requires
            old(self).wf(),
        ensures
            final(self).wf(),
            disconnect_rel(*old(self), *final(self), user_id@, connection_type, now, r),
    {
        let ghost pre = *self;
        let ghost s0 = self.connected_users@;
        if str_eq(user_id.as_str(), self.user_id.as_str()) {
            false
        } else {
            match self.connected_users.index_of(user_id.as_str()) {
                Some(i) => {
                    proof {
                        lemma_key_index_props(s0, user_id@);
                    }
                    if !self.connected_users.val_at(i).has_connection_type(&connection_type) {
                        false
                    } else if self.connected_users.val_at(i).connection_types.len() == 1 {
                        self.connected_users.remove(user_id.as_str());
                        self.updated_at = now;
                        proof {
                            let s1 = self.connected_users@;
                            assert forall|j: int| 0 <= j < s1.len() implies (#[trigger] s1[j]).key@
                                == s1[j].val.user_id@ && s1[j].key@ != self.user_id@
                                && s1[j].val.wf() && s1[j].val.connection_types@.len() >= 1 by {
                                if j < i {
                                    assert(s1[j] == s0[j]);
                                } else {
                                    assert(s1[j] == s0[j + 1]);
                                }
                            }
                        }
                        true
                    } else {
                        let entry = self.connected_users.val_at_mut(i);
                        entry.remove_connection_type(&connection_type, now);
                        self.updated_at = now;
                        proof {
                            let s1 = self.connected_users@;
                            lemma_key_index_update(s0, i as int, s1[i as int]);
                            assert forall|x: Seq<char>|
                                x != user_id@ && conn_has(pre, x) implies #[trigger] val_of(
                                s1,
                                x,
                            ) == val_of(s0, x) by {
                                lemma_key_index_props(s0, x);
                            }
                            assert forall|a: int, b: int|
                                0 <= a < b < s1.len() implies s1[a].key@ != s1[b].key@ by {
                                assert(s0[a].key@ != s0[b].key@);
                            }
                            assert forall|j: int| 0 <= j < s1.len() implies (#[trigger] s1[j]).key@
                                == s1[j].val.user_id@ && s1[j].key@ != self.user_id@
                                && s1[j].val.wf() && s1[j].val.connection_types@.len() >= 1 by {
                                if j != i {
                                    assert(s1[j] == s0[j]);
                                }
                            }
                        }
                        true
                    }
                },
                None => {
                    proof {
                        lemma_key_index_props(s0, user_id@);
                    }
                    false
                },
            }
        }
    }
}

/// After `connect_user(a, b, t)` and then `disconnect_user(a, b, t)`, in
/// any order of other events that leave those two transitions adjacent, the
/// edge to `b` no longer carries `t`: either the whole entry is gone or just
/// that kind is.
pub proof fn lemma_connect_then_disconnect(
    u0: User,
    u1: User,
    u2: User,
    peer: Seq<char>,
    t: UserConnectionType,
    now1: u64,
    now2: u64,
    r1: bool,
    r2: bool,
)
    requires
        u0.wf(),
        connect_rel(u0, u1, peer, t, now1, r1),
        disconnect_rel(u1, u2, peer, t, now2, r2),
    ensures
        !connected_with(u2, peer, t),
{
    if peer == u0.user_id@ {
        assert(u2 == u0);
        if conn_has(u0, peer) {
            lemma_key_index_props(u0.connected_users@, peer);
        }
    } else {
        assert(connected_with(u1, peer, t));
    }
}

/// Connecting a user to itself, or disconnecting it from itself, is always
/// a rejected no-op.
pub proof fn lemma_self_connection_rejected(
    u0: User,
    u1: User,
    t: UserConnectionType,
    now: u64,
    r: bool,
)
    requires
        connect_rel(u0, u1, u0.user_id@, t, now, r) || disconnect_rel(
            u0,
            u1,
            u0.user_id@,
            t,
            now,
            r,
        ),
    ensures
        u1 == u0,
        !r,
{
}


/// Instruction to the peer's own User actor to apply the mirrored half of an
/// edge change; it carries the opposite connection kind.
#[derive(Debug)]
pub struct ConnectionTrigger {
    pub target_user_id: String,
    pub source_user_id: String,
    pub connection_type: UserConnectionType,
}

/// `pre` is the state an operation works on: the stored state when there is
/// one, else a user freshly created at `now`.
pub open spec fn lazy_init(a: UserActor, pre: User, now: u64) -> bool {
    match a.state {
        Some(u) => pre == u,
        None => {
            &&& pre.user_id@ == a.id@
            &&& pre.name is None
            &&& pre.email is None
            &&& pre.connected_users@.len() == 0
            &&& pre.created_at == now
            &&& pre.updated_at == now
        },
    }
}

/// Durable User actor: an optional `User` state, created lazily by the
/// first mutating call.  Mutations report the mirror trigger to deliver.
pub struct UserActor {
    pub id: String,
    pub state: Option<User>,
}

impl UserActor {
    pub open spec fn wf(&self) -> bool {
        match self.state {
            Some(u) => u.wf() && u.user_id@ == self.id@,
            None => true,
        }
    }

    pub fn new(id: String) -> (r: UserActor)
        ensures
            r.id == id,
            r.state is None,
            r.wf(),
    {
        UserActor { id, state: None }
    }

    pub fn get_user(&self) -> (r: &Option<User>)
        ensures
            r == &self.state,
    {
        &self.state
    }

    fn state_mut(&mut self, now: u64) -> (r: &mut User)
        requires
            old(self).wf(),
        ensures
            lazy_init(*old(self), *r, now),
            final(self).id == old(self).id,
            final(self).state == Some(*final(r)),
            r.wf(),
            r.user_id@ == old(self).id@,
    {
        if self.state.is_none() {
            self.state = Some(User::new(self.id.clone(), now));
        }
        match &mut self.state {
            Some(u) => u,
            None => {
                proof {
                    assert(false);
                }
                unreached()
            },
        }
    }

    /// Always succeeds; creates the user on first touch.
    pub fn set_name(&mut self, name: Option<String>, now: u64) -> (r: Result<(), String>)
        requires
            old(self).wf(),
        ensures
            final(self).wf(),
            final(self).id == old(self).id,
            r is Ok,
            final(self).state is Some,
            exists|pre: User|
                {
                    &&& #[trigger] lazy_init(*old(self), pre, now)
                    &&& final(self).state->0.name == name
                    &&& final(self).state->0.updated_at == now
                    &&& final(self).state->0.email == pre.email
                    &&& final(self).state->0.connected_users@ == pre.connected_users@
                    &&& final(self).state->0.created_at == pre.created_at
                },
    {
        let state = self.state_mut(now);
        let ghost pre = *state;
        state.set_name(name, now);
        proof {
            assert(lazy_init(*old(self), pre, now));
        }
        Ok(())
    }

    /// Succeeds exactly on a valid (or cleared) address; an invalid one
    /// leaves the state as it was, apart from its lazy creation.
    pub fn set_email(&mut self, email: Option<String>, now: u64) -> (r: Result<(), String>)
        requires
            old(self).wf(),
        ensures
            final(self).wf(),
            final(self).id == old(self).id,
            final(self).state is Some,
            (match email {
                Some(ref e) => valid_email(e@),
                None => true,
            }) ==> r is Ok && final(self).state->0.email == email && final(self).state->0.updated_at
                == now,
            !(match email {
                Some(ref e) => valid_email(e@),
                None => true,
            }) ==> r is Err && r->Err_0@ == "Invalid email"@ && exists|pre: User|
                #[trigger] lazy_init(*old(self), pre, now) && final(self).state == Some(pre),
    {
        let state = self.state_mut(now);
        let ghost pre = *state;
        let r = state.set_email(email, now);
        proof {
            assert(lazy_init(*old(self), pre, now));
        }
        r
    }

    /// Record the edge; on a change, report the mirror trigger for the peer,
    /// carrying the opposite kind.
    pub fn connect_user(
        &mut self,
        user_id: String,
        connection_type: UserConnectionType,
        now: u64,
    ) -> (r: (Result<(), String>, Option<ConnectionTrigger>))
        requires
            old(self).wf(),
        ensures
            final(self).wf(),
            final(self).id == old(self).id,
            final(self).state is Some,
            r.0 is Ok,
            exists|pre: User|
                #[trigger] lazy_init(*old(self), pre, now) && connect_rel(
                    pre,
                    final(self).state->0,
                    user_id@,
                    connection_type,
                    now,
                    r.1 is Some,
                ),
            (match r.1 {
                Some(tg) => {
                    &&& tg.target_user_id@ == user_id@
                    &&& tg.source_user_id@ == old(self).id@
                    &&& tg.connection_type == connection_type.opposite()
                },
                None => true,
            }),
    {
        let ghost a0 = *self;
        let source = self.id.clone();
        let state = self.state_mut(now);
        let ghost pre = *state;
        let changed = state.connect_user(user_id.clone(), connection_type, now);
        proof {
            assert(lazy_init(a0, pre, now));
        }
        if changed {
            let opposite = connection_type.get_opposite();
            (
                Ok(()),
                Some(
                    ConnectionTrigger {
                        target_user_id: user_id,
                        source_user_id: source,
                        connection_type: opposite,
                    },
                ),
            )
        } else {
            (Ok(()), None)
        }
    }

    /// Drop the edge kind; on a change, report the mirror trigger for the
    /// peer, carrying the opposite kind.
    pub fn disconnect_user(
        &mut self,
        user_id: String,
        connection_type: UserConnectionType,
        now: u64,
    ) -> (r: (Result<(), String>, Option<ConnectionTrigger>))
        requires
            old(self).wf(),
        ensures
            final(self).wf(),
            final(self).id == old(self).id,
            final(self).state is Some,
            r.0 is Ok,
            exists|pre: User|
                #[trigger] lazy_init(*old(self), pre, now) && disconnect_rel(
                    pre,
                    final(self).state->0,
                    user_id@,
                    connection_type,
                    now,
                    r.1 is Some,
                ),
            (match r.1 {
                Some(tg) => {
                    &&& tg.target_user_id@ == user_id@
                    &&& tg.source_user_id@ == old(self).id@
                    &&& tg.connection_type == connection_type.opposite()
                },
                None => true,
            }),
    {
        let ghost a0 = *self;
        let source = self.id.clone();
        let state = self.state_mut(now);
        let ghost pre = *state;
        let changed = state.disconnect_user(user_id.clone(), connection_type, now);
        proof {
            assert(lazy_init(a0, pre, now));
        }
        if changed {
            let opposite = connection_type.get_opposite();
            (
                Ok(()),
                Some(
                    ConnectionTrigger {
                        target_user_id: user_id,
                        source_user_id: source,
                        connection_type: opposite,
                    },
                ),
            )
        } else {
            (Ok(()), None)
        }
    }
}

/// A recorded edge from `a` to `b` of kind `t`, mirrored by applying the
/// emitted opposite-kind connect at `b`, leaves `b` holding the opposite
/// kind towards `a`: `Follower` mirrors to `Following`, `Friend` to
/// `Friend`.
pub proof fn lemma_mirrored_edge(
    a0: User,
    a1: User,
    b0: User,
    b1: User,
    t: UserConnectionType,
    n1: u64,
    n2: u64,
    r1: bool,
    r2: bool,
)
    requires
        connect_rel(a0, a1, b0.user_id@, t, n1, r1),
        r1,
        connect_rel(b0, b1, a0.user_id@, t.opposite(), n2, r2),
        a0.user_id@ != b0.user_id@,
    ensures
        connected_with(a1, b0.user_id@, t),
        connected_with(b1, a0.user_id@, t.opposite()),
        t == UserConnectionType::Follower ==> connected_with(
            b1,
            a0.user_id@,
            UserConnectionType::Following,
        ),
        t == UserConnectionType::Friend ==> connected_with(
            b1,
            a0.user_id@,
            UserConnectionType::Friend,
        ),
{
}


/// One `field:value` filter as it applies to a user: unknown fields fail
/// closed.
pub open spec fn user_filter_ok(field: Seq<char>, value: Seq<char>, u: User) -> bool {
    if field == "user-id"@ || field == "userid"@ {
        spec_text_exact_matches(u.user_id@, value)
    } else if field == "name"@ {
        spec_opt_text_matches(opt_view(u.name), value)
    } else if field == "email"@ {
        spec_opt_text_exact_matches(opt_view(u.email), value)
    } else {
        false
    }
}

/// One bare term as it applies to a user: it must show up in the id, the
/// name or the email.
pub open spec fn user_term_ok(term: Seq<char>, u: User) -> bool {
    ||| spec_text_matches(u.user_id@, term)
    ||| spec_opt_text_matches(opt_view(u.name), term)
    ||| spec_opt_text_matches(opt_view(u.email), term)
}

/// Every filter passes and every bare term matches some searchable field.
pub open spec fn spec_user_matches(q: Query, u: User) -> bool {
    &&& forall|i: int|
        0 <= i < q.filters_view().len() ==> #[trigger] user_filter_ok(
            q.filters_view()[i].0,
            q.filters_view()[i].1,
            u,
        )
    &&& forall|i: int|
        0 <= i < q.terms_view().len() ==> #[trigger] user_term_ok(q.terms_view()[i], u)
}

fn clone_opt_string(o: &Option<String>) -> (r: Option<String>)
    ensures
        opt_view(r) == opt_view(*o),
{
    match o {
        Some(s) => Some(s.clone()),
        None => None,
    }
}

/// Evaluates a parsed query against users.
pub struct UserQueryMatcher {
    query: Query,
}

impl UserQueryMatcher {
    pub closed spec fn query_spec(&self) -> Query {
        self.query
    }

    pub fn new(query: &str) -> (r: UserQueryMatcher)
        ensures
            r.query_spec().terms_view() == crate::query::terms_of(
                crate::query::tokens_of(query@),
            ),
            r.query_spec().filters_view() == crate::query::filters_of(
                crate::query::tokens_of(query@),
            ),
    {
        let q = Query::new(query);
        UserQueryMatcher { query: q }
    }

    /// Whether the user matches the query.
    pub fn matches(&self, user: User) -> (r: bool)
        ensures
            r == spec_user_matches(self.query_spec(), user),
    {
        let nf = self.query.field_filters.len();
        let mut i: usize = 0;
        while i < nf
            invariant
                i <= nf,
                nf == self.query.field_filters@.len(),
                forall|j: int|
                    0 <= j < i ==> #[trigger] user_filter_ok(
                        self.query.filters_view()[j].0,
                        self.query.filters_view()[j].1,
                        user,
                    ),
            decreases nf - i,
        {
            let field = &self.query.field_filters[i].0;
            let value = &self.query.field_filters[i].1;
            let ok: bool = if str_eq(field.as_str(), "user-id") || str_eq(field.as_str(), "userid")
                {
                text_exact_matches(user.user_id.as_str(), value.as_str())
            } else if str_eq(field.as_str(), "name") {
                opt_text_matches(clone_opt_string(&user.name), value.as_str())
            } else if str_eq(field.as_str(), "email") {
                opt_text_exact_matches(clone_opt_string(&user.email), value.as_str())
            } else {
                false
            };
            if !ok {
                proof {
                    assert(!user_filter_ok(
                        self.query.filters_view()[i as int].0,
                        self.query.filters_view()[i as int].1,
                        user,
                    ));
                }
                return false;
            }
            i = i + 1;
        }
        let nt = self.query.terms.len();
        let mut k: usize = 0;
        while k < nt
            invariant
                k <= nt,
                nt == self.query.terms@.len(),
                forall|j: int|
                    0 <= j < i ==> #[trigger] user_filter_ok(
                        self.query.filters_view()[j].0,
                        self.query.filters_view()[j].1,
                        user,
                    ),
                i == self.query.field_filters@.len(),
                forall|j: int|
                    0 <= j < k ==> #[trigger] user_term_ok(self.query.terms_view()[j], user),
            decreases nt - k,
        {
            let term = &self.query.terms[k];
            let ok = text_matches(user.user_id.as_str(), term.as_str()) || opt_text_matches(
                clone_opt_string(&user.name),
                term.as_str(),
            ) || opt_text_matches(clone_opt_string(&user.email), term.as_str());
            if !ok {
                proof {
                    assert(!user_term_ok(self.query.terms_view()[k as int], user));
                }
                return false;
            }
            k = k + 1;
        }
        true
    }
}

} // verus!
