//! Insertion-ordered association containers keyed by id strings.  `IdMap`
//! mirrors the map API the entities rely on (insert replaces the value of an
//! existing key in place, otherwise appends); `IdSet` is the corresponding
//! set of id strings.  Both keep their entries' order, which the comment
//! tree's parent-before-child invariant depends on.

use vstd::prelude::*;
use vstd::string::*;
use crate::strutil::str_eq;

verus! {

#[derive(Debug)]
pub struct IdEntry<T> {
    pub key: String,
    pub val: T,
}

/// First position whose key reads `k`, or -1 when no key does.
pub open spec fn key_index<T>(s: Seq<IdEntry<T>>, k: Seq<char>) -> int
    decreases s.len(),
{
    if s.len() == 0 {
        -1
    } else if s[0].key@ == k {
        0
    } else {
        let r = key_index(s.subrange(1, s.len() as int), k);
        if r < 0 {
            -1
        } else {
            1 + r
        }
    }
}

pub open spec fn has_key<T>(s: Seq<IdEntry<T>>, k: Seq<char>) -> bool {
    key_index(s, k) >= 0
}

pub open spec fn val_of<T>(s: Seq<IdEntry<T>>, k: Seq<char>) -> T {
    s[key_index(s, k)].val
}

pub open spec fn unique_keys<T>(s: Seq<IdEntry<T>>) -> bool {
    forall|i: int, j: int| 0 <= i < j < s.len() ==> s[i].key@ != s[j].key@
}

pub proof fn lemma_key_index_props<T>(s: Seq<IdEntry<T>>, k: Seq<char>)
    ensures
        -1 <= key_index(s, k) < s.len(),
        key_index(s, k) >= 0 ==> s[key_index(s, k)].key@ == k,
        forall|j: int| 0 <= j < key_index(s, k) ==> s[j].key@ != k,
        key_index(s, k) == -1 ==> forall|j: int| 0 <= j < s.len() ==> s[j].key@ != k,
    decreases s.len(),
{
    if s.len() == 0 {
    } else if s[0].key@ == k {
    } else {
        let rest = s.subrange(1, s.len() as int);
        lemma_key_index_props(rest, k);
        if key_index(rest, k) >= 0 {
            assert(s[key_index(s, k)] == rest[key_index(rest, k)]);
        }
        assert forall|j: int| 0 <= j < key_index(s, k) implies s[j].key@ != k by {
            if j >= 1 {
                assert(s[j] == rest[j - 1]);
            }
        }
        if key_index(s, k) == -1 {
            assert forall|j: int| 0 <= j < s.len() implies s[j].key@ != k by {
                if j >= 1 {
                    assert(s[j] == rest[j - 1]);
                }
            }
        }
    }
}

/// A forward scan that rules out positions `0..i` and finds `k` at `i` (or
/// never) pins `key_index` down.
pub proof fn lemma_key_index_at<T>(s: Seq<IdEntry<T>>, k: Seq<char>, i: int)
    requires
        0 <= i <= s.len(),
        forall|j: int| 0 <= j < i ==> s[j].key@ != k,
        i < s.len() ==> s[i].key@ == k,
    ensures
        i < s.len() ==> key_index(s, k) == i,
        i == s.len() ==> key_index(s, k) == -1,
    decreases s.len(),
{
    if s.len() == 0 {
    } else if s[0].key@ == k {
        assert(i == 0);
    } else {
        let rest = s.subrange(1, s.len() as int);
        lemma_key_index_at(rest, k, i - 1);
    }
}

proof fn lemma_key_index_push_one<T>(s: Seq<IdEntry<T>>, e: IdEntry<T>, x: Seq<char>)
    ensures
        key_index(s.push(e), x) == (if has_key(s, x) {
            key_index(s, x)
        } else if e.key@ == x {
            s.len() as int
        } else {
            -1
        }),
    decreases s.len(),
{
    if s.len() == 0 {
        assert(s.push(e) =~= seq![e]);
        assert(s.push(e).subrange(1, 1) =~= Seq::<IdEntry<T>>::empty());
        assert(key_index(Seq::<IdEntry<T>>::empty(), x) == -1);
    } else {
        let t = s.push(e);
        assert(t[0] == s[0]);
        let rest = s.subrange(1, s.len() as int);
        assert(t.subrange(1, t.len() as int) =~= rest.push(e));
        lemma_key_index_push_one(rest, e, x);
        if s[0].key@ == x {
            assert(key_index(t, x) == 0);
            assert(key_index(s, x) == 0);
        } else {
            let r1 = key_index(rest.push(e), x);
            assert(key_index(t, x) == (if r1 < 0 {
                -1int
            } else {
                1 + r1
            }));
            let r0 = key_index(rest, x);
            assert(key_index(s, x) == (if r0 < 0 {
                -1int
            } else {
                1 + r0
            }));
        }
    }
}

/// How every key's position reacts to appending one entry.
pub proof fn lemma_key_index_push<T>(s: Seq<IdEntry<T>>, e: IdEntry<T>)
    ensures
        forall|x: Seq<char>| #[trigger] key_index(s.push(e), x) == (if has_key(s, x) {
            key_index(s, x)
        } else if e.key@ == x {
            s.len() as int
        } else {
            -1
        }),
{
    assert forall|x: Seq<char>| #[trigger] key_index(s.push(e), x) == (if has_key(s, x) {
        key_index(s, x)
    } else if e.key@ == x {
        s.len() as int
    } else {
        -1
    }) by {
        lemma_key_index_push_one(s, e, x);
    }
}

proof fn lemma_key_index_update_one<T>(s: Seq<IdEntry<T>>, i: int, e: IdEntry<T>, x: Seq<char>)
    requires
        0 <= i < s.len(),
        e.key@ == s[i].key@,
    ensures
        key_index(s.update(i, e), x) == key_index(s, x),
    decreases s.len(),
{
    let t = s.update(i, e);
    assert(t.len() == s.len());
    if i == 0 {
        assert(t[0] == e);
        assert(t.subrange(1, t.len() as int) =~= s.subrange(1, s.len() as int));
    } else {
        assert(t[0] == s[0]);
        assert(t.subrange(1, t.len() as int) =~= s.subrange(1, s.len() as int).update(i - 1, e));
        lemma_key_index_update_one(s.subrange(1, s.len() as int), i - 1, e, x);
    }
}

/// Replacing an entry by one with the same key moves no key's position.
pub proof fn lemma_key_index_update<T>(s: Seq<IdEntry<T>>, i: int, e: IdEntry<T>)
    requires
        0 <= i < s.len(),
        e.key@ == s[i].key@,
    ensures
        forall|x: Seq<char>| #[trigger] key_index(s.update(i, e), x) == key_index(s, x),
{
    assert forall|x: Seq<char>| #[trigger] key_index(s.update(i, e), x) == key_index(s, x) by {
        lemma_key_index_update_one(s, i, e, x);
    }
}

proof fn lemma_key_index_remove_one<T>(s: Seq<IdEntry<T>>, i: int, x: Seq<char>)
    requires
        unique_keys(s),
        0 <= i < s.len(),
    ensures
        x == s[i].key@ ==> key_index(s.remove(i), x) == -1,
        x != s[i].key@ ==> (key_index(s.remove(i), x) >= 0 <==> key_index(s, x) >= 0),
        x != s[i].key@ && key_index(s, x) >= 0 ==> s.remove(i)[key_index(s.remove(i), x)]
            == s[key_index(s, x)],
    decreases s.len(),
{
    let t = s.remove(i);
    lemma_key_index_props(s, x);
    lemma_key_index_props(t, x);
    if i == 0 {
        assert(t =~= s.subrange(1, s.len() as int));
        if x == s[0].key@ {
            assert forall|j: int| 0 <= j < t.len() implies t[j].key@ != x by {
                assert(t[j] == s[j + 1]);
            }
            lemma_key_index_at(t, x, t.len() as int);
        }
    } else {
        let srest = s.subrange(1, s.len() as int);
        assert(t[0] == s[0]);
        assert(t.subrange(1, t.len() as int) =~= srest.remove(i - 1));
        assert(unique_keys(srest));
        lemma_key_index_remove_one(srest, i - 1, x);
        if x == s[i].key@ {
            assert(s[0].key@ != x);
        }
    }
}

/// How every key reacts to removing the entry at `i`, when keys are unique.
pub proof fn lemma_key_index_remove<T>(s: Seq<IdEntry<T>>, i: int)
    requires
        unique_keys(s),
        0 <= i < s.len(),
    ensures
        forall|x: Seq<char>| x == s[i].key@ ==> !#[trigger] has_key(s.remove(i), x),
        forall|x: Seq<char>| x != s[i].key@ ==> #[trigger] has_key(s.remove(i), x) == has_key(
            s,
            x,
        ),
        forall|x: Seq<char>| x != s[i].key@ && has_key(s, x) ==> #[trigger] val_of(s.remove(i), x)
            == val_of(s, x),
        unique_keys(s.remove(i)),
{
    assert forall|x: Seq<char>| x == s[i].key@ implies !#[trigger] has_key(s.remove(i), x) by {
        lemma_key_index_remove_one(s, i, x);
    }
    assert forall|x: Seq<char>| x != s[i].key@ implies #[trigger] has_key(s.remove(i), x)
        == has_key(s, x) by {
        lemma_key_index_remove_one(s, i, x);
    }
    assert forall|x: Seq<char>| x != s[i].key@ && has_key(s, x) implies #[trigger] val_of(
        s.remove(i),
        x,
    ) == val_of(s, x) by {
        lemma_key_index_remove_one(s, i, x);
        lemma_key_index_props(s, x);
        lemma_key_index_props(s.remove(i), x);
    }
    assert forall|a: int, b: int| 0 <= a < b < s.remove(i).len() implies s.remove(i)[a].key@
        != s.remove(i)[b].key@ by {
        let t = s.remove(i);
        let a0: int = if a < i {
            a
        } else {
            a + 1
        };
        let b0: int = if b < i {
            b
        } else {
            b + 1
        };
        assert(t[a] == s[a0]);
        assert(t[b] == s[b0]);
    }
}

/// Insertion-ordered map from id strings to values.
pub struct IdMap<T> {
    entries: Vec<IdEntry<T>>,
}

impl<T> View for IdMap<T> {
    type V = Seq<IdEntry<T>>;

    closed spec fn view(&self) -> Seq<IdEntry<T>> {
        self.entries@
    }
}

impl<T> IdMap<T> {
    /// Keys occur at most once.
    pub open spec fn wf(&self) -> bool {
        unique_keys(self@)
    }

    pub fn new() -> (r: IdMap<T>)
        ensures
            r@ == Seq::<IdEntry<T>>::empty(),
            r.wf(),
    {
        let r = IdMap { entries: Vec::new() };
        proof {
            assert(r@ =~= Seq::<IdEntry<T>>::empty());
        }
        r
    }

    pub fn len(&self) -> (r: usize)
        ensures
            r == self@.len(),
    {
        self.entries.len()
    }

    pub fn is_empty(&self) -> (r: bool)
        ensures
            r == (self@.len() == 0),
    {
        self.entries.is_empty()
    }

    /// Position of `k`, scanning from the front.
    pub fn index_of(&self, k: &str) -> (r: Option<usize>)
        ensures
            r is Some <==> has_key(self@, k@),
            r is Some ==> r->0 == key_index(self@, k@),
    {
        let n = self.entries.len();
        let mut i: usize = 0;
        while i < n
            invariant
                i <= n,
                n == self@.len(),
                forall|j: int| 0 <= j < i ==> self@[j].key@ != k@,
            decreases n - i,
        {
            if str_eq(self.entries[i].key.as_str(), k) {
                proof {
                    lemma_key_index_at(self@, k@, i as int);
                }
                return Some(i);
            }
            i = i + 1;
        }
        proof {
            lemma_key_index_at(self@, k@, n as int);
        }
        None
    }

    pub fn contains_key(&self, k: &str) -> (r: bool)
        ensures
            r == has_key(self@, k@),
    {
        match self.index_of(k) {
            Some(_) => true,
            None => false,
        }
    }

    pub fn get(&self, k: &str) -> (r: Option<&T>)
        ensures
            r is Some <==> has_key(self@, k@),
            r is Some ==> *r->0 == val_of(self@, k@),
    {
        match self.index_of(k) {
            Some(i) => {
                proof {
                    lemma_key_index_props(self@, k@);
                }
                Some(&self.entries[i].val)
            },
            None => None,
        }
    }

    pub fn key_at(&self, i: usize) -> (r: &String)
        requires
            i < self@.len(),
        ensures
            *r == self@[i as int].key,
    {
        &self.entries[i].key
    }

    pub fn val_at(&self, i: usize) -> (r: &T)
        requires
            i < self@.len(),
        ensures
            *r == self@[i as int].val,
    {
        &self.entries[i].val
    }

    /// Mutable access to the value at position `i`; the key stays.
    pub fn val_at_mut(&mut self, i: usize) -> (r: &mut T)
        requires
            i < old(self)@.len(),
        ensures
            *r == old(self)@[i as int].val,
            final(self)@ == old(self)@.update(
                i as int,
                (IdEntry { key: old(self)@[i as int].key, val: *final(r) }),
            ),
    {
        let e = &mut self.entries[i];
        &mut e.val
    }

    /// Map-style insert: replaces the value of an existing key in place,
    /// appends a new entry otherwise; reports whether the key was present.
    pub fn insert(&mut self, k: String, v: T) -> (had: bool)
        requires
            old(self).wf(),
        ensures
            had == has_key(old(self)@, k@),
            !had ==> final(self)@ == old(self)@.push((IdEntry { key: k, val: v })),
            had ==> final(self)@ == old(self)@.update(
                key_index(old(self)@, k@),
                (IdEntry { key: k, val: v }),
            ),
            final(self).wf(),
            has_key(final(self)@, k@),
            val_of(final(self)@, k@) == v,
            forall|x: Seq<char>| x != k@ ==> #[trigger] has_key(final(self)@, x) == has_key(
                old(self)@,
                x,
            ),
            forall|x: Seq<char>| x != k@ && has_key(old(self)@, x) ==> #[trigger] val_of(
                final(self)@,
                x,
            ) == val_of(old(self)@, x),
            final(self)@.len() == old(self)@.len() + (if had {
                0int
            } else {
                1int
            }),
            upsert_rel(old(self)@, final(self)@, k@, v),
    {
        let ghost s0 = self@;
        match self.index_of(k.as_str()) {
            Some(i) => {
                proof {
                    lemma_key_index_props(s0, k@);
                }
                let e = &mut self.entries[i];
                *e = IdEntry { key: k, val: v };
                proof {
                    lemma_key_index_update(s0, i as int, (IdEntry { key: k, val: v }));
                    lemma_key_index_props(self@, k@);
                    assert forall|a: int, b: int| 0 <= a < b < self@.len() implies self@[a].key@
                        != self@[b].key@ by {
                        assert(s0[a].key@ != s0[b].key@);
                    }
                    assert forall|x: Seq<char>| x != k@ && has_key(s0, x) implies #[trigger] val_of(
                        self@,
                        x,
                    ) == val_of(s0, x) by {
                        lemma_key_index_props(s0, x);
                        assert(key_index(s0, x) != i as int);
                    }
                }
                true
            },
            None => {
                proof {
                    lemma_key_index_props(s0, k@);
                }
                self.entries.push(IdEntry { key: k, val: v });
                proof {
                    lemma_key_index_push(s0, (IdEntry { key: k, val: v }));
                    lemma_key_index_props(self@, k@);
                    assert forall|x: Seq<char>| x != k@ && has_key(s0, x) implies #[trigger] val_of(
                        self@,
                        x,
                    ) == val_of(s0, x) by {
                        lemma_key_index_props(s0, x);
                        assert(self@[key_index(s0, x)] == s0[key_index(s0, x)]);
                    }
                    assert forall|a: int, b: int| 0 <= a < b < self@.len() implies self@[a].key@
                        != self@[b].key@ by {
                        if b < s0.len() {
                            assert(s0[a].key@ != s0[b].key@);
                        } else {
                            assert(self@[b].key@ == k@);
                            assert(self@[a] == s0[a]);
                            lemma_key_index_at(s0, s0[a].key@, a);
                        }
                    }
                }
                false
            },
        }
    }

    /// Map-style remove; reports whether the key was present.
    pub fn remove(&mut self, k: &str) -> (had: bool)
        requires
            old(self).wf(),
        ensures
            had == has_key(old(self)@, k@),
            had ==> final(self)@ == old(self)@.remove(key_index(old(self)@, k@)),
            !had ==> final(self)@ == old(self)@,
            final(self).wf(),
            !has_key(final(self)@, k@),
            forall|x: Seq<char>| x != k@ ==> #[trigger] has_key(final(self)@, x) == has_key(
                old(self)@,
                x,
            ),
            forall|x: Seq<char>| x != k@ && has_key(old(self)@, x) ==> #[trigger] val_of(
                final(self)@,
                x,
            ) == val_of(old(self)@, x),
            final(self)@.len() == old(self)@.len() - (if had {
                1int
            } else {
                0int
            }),
    {
        let ghost s0 = self@;
        match self.index_of(k) {
            Some(i) => {
                proof {
                    lemma_key_index_props(s0, k@);
                }
                self.entries.remove(i);
                proof {
                    lemma_key_index_remove(s0, i as int);
                }
                true
            },
            None => {
                proof {
                    lemma_key_index_props(s0, k@);
                }
                false
            },
        }
    }
}

/// Position of `id` in a plain id list, or -1.
pub open spec fn id_index(s: Seq<String>, id: Seq<char>) -> int
    decreases s.len(),
{
    if s.len() == 0 {
        -1
    } else if s[0]@ == id {
        0
    } else {
        let r = id_index(s.subrange(1, s.len() as int), id);
        if r < 0 {
            -1
        } else {
            1 + r
        }
    }
}

pub open spec fn has_id(s: Seq<String>, id: Seq<char>) -> bool {
    id_index(s, id) >= 0
}

pub open spec fn unique_ids(s: Seq<String>) -> bool {
    forall|i: int, j: int| 0 <= i < j < s.len() ==> s[i]@ != s[j]@
}

pub proof fn lemma_id_index_props(s: Seq<String>, id: Seq<char>)
    ensures
        -1 <= id_index(s, id) < s.len(),
        id_index(s, id) >= 0 ==> s[id_index(s, id)]@ == id,
        id_index(s, id) == -1 ==> forall|j: int| 0 <= j < s.len() ==> s[j]@ != id,
    decreases s.len(),
{
    if s.len() == 0 {
    } else if s[0]@ == id {
    } else {
        let rest = s.subrange(1, s.len() as int);
        lemma_id_index_props(rest, id);
        if id_index(rest, id) >= 0 {
            assert(s[id_index(s, id)] == rest[id_index(rest, id)]);
        }
        if id_index(s, id) == -1 {
            assert forall|j: int| 0 <= j < s.len() implies s[j]@ != id by {
                if j >= 1 {
                    assert(s[j] == rest[j - 1]);
                }
            }
        }
    }
}

pub proof fn lemma_id_index_at(s: Seq<String>, id: Seq<char>, i: int)
    requires
        0 <= i <= s.len(),
        forall|j: int| 0 <= j < i ==> s[j]@ != id,
        i < s.len() ==> s[i]@ == id,
    ensures
        i < s.len() ==> id_index(s, id) == i,
        i == s.len() ==> id_index(s, id) == -1,
    decreases s.len(),
{
    if s.len() == 0 {
    } else if s[0]@ == id {
        assert(i == 0);
    } else {
        lemma_id_index_at(s.subrange(1, s.len() as int), id, i - 1);
    }
}

proof fn lemma_id_index_push_one(s: Seq<String>, e: String, x: Seq<char>)
    ensures
        id_index(s.push(e), x) == (if has_id(s, x) {
            id_index(s, x)
        } else if e@ == x {
            s.len() as int
        } else {
            -1
        }),
    decreases s.len(),
{
    if s.len() == 0 {
        assert(s.push(e) =~= seq![e]);
        assert(s.push(e).subrange(1, 1) =~= Seq::<String>::empty());
        assert(id_index(Seq::<String>::empty(), x) == -1);
    } else {
        let t = s.push(e);
        assert(t[0] == s[0]);
        let rest = s.subrange(1, s.len() as int);
        assert(t.subrange(1, t.len() as int) =~= rest.push(e));
        lemma_id_index_push_one(rest, e, x);
        if s[0]@ == x {
            assert(id_index(t, x) == 0);
            assert(id_index(s, x) == 0);
        } else {
            let r1 = id_index(rest.push(e), x);
            assert(id_index(t, x) == (if r1 < 0 {
                -1int
            } else {
                1 + r1
            }));
            let r0 = id_index(rest, x);
            assert(id_index(s, x) == (if r0 < 0 {
                -1int
            } else {
                1 + r0
            }));
        }
    }
}

/// How every id's membership reacts to appending one id.
pub proof fn lemma_id_index_push(s: Seq<String>, e: String)
    ensures
        forall|x: Seq<char>| #[trigger] id_index(s.push(e), x) == (if has_id(s, x) {
            id_index(s, x)
        } else if e@ == x {
            s.len() as int
        } else {
            -1
        }),
{
    assert forall|x: Seq<char>| #[trigger] id_index(s.push(e), x) == (if has_id(s, x) {
        id_index(s, x)
    } else if e@ == x {
        s.len() as int
    } else {
        -1
    }) by {
        lemma_id_index_push_one(s, e, x);
    }
}

/// Set of id strings, kept in first-insertion order.
#[derive(Debug)]
pub struct IdSet {
    ids: Vec<String>,
}

impl View for IdSet {
    type V = Seq<String>;

    closed spec fn view(&self) -> Seq<String> {
        self.ids@
    }
}

impl IdSet {
    pub open spec fn wf(&self) -> bool {
        unique_ids(self@)
    }

    pub fn new() -> (r: IdSet)
        ensures
            r@ == Seq::<String>::empty(),
            r.wf(),
    {
        let r = IdSet { ids: Vec::new() };
        proof {
            assert(r@ =~= Seq::<String>::empty());
        }
        r
    }

    pub fn len(&self) -> (r: usize)
        ensures
            r == self@.len(),
    {
        self.ids.len()
    }

    pub fn is_empty(&self) -> (r: bool)
        ensures
            r == (self@.len() == 0),
    {
        self.ids.is_empty()
    }

    pub fn contains(&self, id: &str) -> (r: bool)
        ensures
            r == has_id(self@, id@),
    {
        let n = self.ids.len();
        let mut i: usize = 0;
        while i < n
            invariant
                i <= n,
                n == self@.len(),
                forall|j: int| 0 <= j < i ==> self@[j]@ != id@,
            decreases n - i,
        {
            if str_eq(self.ids[i].as_str(), id) {
                proof {
                    lemma_id_index_at(self@, id@, i as int);
                }
                return true;
            }
            i = i + 1;
        }
        proof {
            lemma_id_index_at(self@, id@, n as int);
        }
        false
    }

    pub fn at(&self, i: usize) -> (r: &String)
        requires
            i < self@.len(),
        ensures
            *r == self@[i as int],
    {
        &self.ids[i]
    }

    /// Set-style insert; reports whether the id was new.
    pub fn insert(&mut self, id: String) -> (added: bool)
        requires
            old(self).wf(),
        ensures
            added == !has_id(old(self)@, id@),
            added ==> final(self)@ == old(self)@.push(id),
            !added ==> final(self)@ == old(self)@,
            final(self).wf(),
            has_id(final(self)@, id@),
            forall|x: Seq<char>| x != id@ ==> #[trigger] has_id(final(self)@, x) == has_id(
                old(self)@,
                x,
            ),
            final(self)@.len() == old(self)@.len() + (if added {
                1int
            } else {
                0int
            }),
    {
        let ghost s0 = self@;
        if self.contains(id.as_str()) {
            proof {
                lemma_id_index_props(s0, id@);
            }
            false
        } else {
            proof {
                lemma_id_index_props(s0, id@);
            }
            self.ids.push(id);
            proof {
                lemma_id_index_push(s0, id);
                lemma_id_index_props(self@, id@);
                assert forall|a: int, b: int| 0 <= a < b < self@.len() implies self@[a]@
                    != self@[b]@ by {
                    if b < s0.len() {
                        assert(s0[a]@ != s0[b]@);
                    } else {
                        assert(self@[a] == s0[a]);
                        lemma_id_index_at(s0, s0[a]@, a);
                    }
                }
            }
            true
        }
    }
}


/// Membership in an id list is the existence of a position reading `id`.
pub proof fn lemma_has_id_exists(s: Seq<String>, id: Seq<char>)
    ensures
        has_id(s, id) == exists|j: int| 0 <= j < s.len() && s[j]@ == id,
{
    lemma_id_index_props(s, id);
    if has_id(s, id) {
        assert(s[id_index(s, id)]@ == id);
    }
}


/// Membership by key is the existence of a position with that key.
pub proof fn lemma_has_key_exists<T>(s: Seq<IdEntry<T>>, k: Seq<char>)
    ensures
        has_key(s, k) == exists|j: int| 0 <= j < s.len() && s[j].key@ == k,
{
    lemma_key_index_props(s, k);
    if has_key(s, k) {
        assert(s[key_index(s, k)].key@ == k);
    }
}

/// Holds of entries whose key is not in `ids`.
pub open spec fn key_not_in<T>(ids: Seq<String>) -> spec_fn(IdEntry<T>) -> bool {
    |e: IdEntry<T>| !has_id(ids, e.key@)
}

/// `s` with every entry whose key is in `ids` dropped.
pub open spec fn without_keys<T>(s: Seq<IdEntry<T>>, ids: Seq<String>) -> Seq<IdEntry<T>> {
    s.filter(key_not_in(ids))
}

/// Dropping a set of keys keeps the remaining keys unique, keeps exactly
/// the entries whose key is outside the set, and moves no value.
pub proof fn lemma_without_keys<T>(s: Seq<IdEntry<T>>, ids: Seq<String>)
    requires
        unique_keys(s),
    ensures
        unique_keys(without_keys(s, ids)),
        forall|x: Seq<char>| #[trigger] has_key(without_keys(s, ids), x) == (has_key(s, x)
            && !has_id(ids, x)),
        forall|x: Seq<char>| has_key(without_keys(s, ids), x) ==> #[trigger] val_of(
            without_keys(s, ids),
            x,
        ) == val_of(s, x),
        forall|e: IdEntry<T>| #[trigger] without_keys(s, ids).contains(e) ==> s.contains(e),
    decreases s.len(),
{
    reveal(Seq::filter);
    let t = without_keys(s, ids);
    if s.len() == 0 {
        assert forall|x: Seq<char>| #[trigger] has_key(t, x) == (has_key(s, x) && !has_id(
            ids,
            x,
        )) by {
            lemma_key_index_props(t, x);
            lemma_key_index_props(s, x);
        }
    } else {
        let sd = s.drop_last();
        let e = s.last();
        assert(unique_keys(sd));
        lemma_without_keys(sd, ids);
        let td = without_keys(sd, ids);
        assert(s =~= sd.push(e));
        lemma_key_index_push(sd, e);
        // the last entry's key is new among the earlier ones
        assert(!has_key(sd, e.key@)) by {
            lemma_has_key_exists(sd, e.key@);
            if exists|j: int| 0 <= j < sd.len() && sd[j].key@ == e.key@ {
                let j = choose|j: int| 0 <= j < sd.len() && sd[j].key@ == e.key@;
                assert(s[j].key@ == s[s.len() - 1].key@);
            }
        }
        if !has_id(ids, e.key@) {
            assert(t == td.push(e));
            lemma_key_index_push(td, e);
            assert(!has_key(td, e.key@));
            assert forall|a: int, b: int| 0 <= a < b < t.len() implies t[a].key@ != t[b].key@ by {
                if b < td.len() {
                    assert(td[a].key@ != td[b].key@);
                } else {
                    assert(t[b] == e);
                    assert(t[a] == td[a]);
                    lemma_has_key_exists(td, td[a].key@);
                }
            }
            assert forall|x: Seq<char>| #[trigger] has_key(t, x) == (has_key(s, x) && !has_id(
                ids,
                x,
            )) by {
                lemma_key_index_props(td, x);
            }
            assert forall|x: Seq<char>| has_key(t, x) implies #[trigger] val_of(t, x) == val_of(
                s,
                x,
            ) by {
                lemma_key_index_props(t, x);
                lemma_key_index_props(td, x);
                lemma_key_index_props(s, x);
                lemma_key_index_props(sd, x);
                if x == e.key@ {
                    assert(key_index(t, x) == td.len());
                    assert(key_index(s, x) == sd.len());
                    assert(t[td.len() as int] == e);
                    assert(s[sd.len() as int] == e);
                } else {
                    assert(has_key(td, x));
                    assert(val_of(td, x) == val_of(sd, x));
                    assert(t[key_index(t, x)] == td[key_index(td, x)]);
                    assert(s[key_index(s, x)] == sd[key_index(sd, x)]);
                }
            }
            assert forall|y: IdEntry<T>| #[trigger] t.contains(y) implies s.contains(y) by {
                let j = choose|j: int| 0 <= j < t.len() && t[j] == y;
                if j < td.len() {
                    assert(td.contains(y));
                    let l = choose|l: int| 0 <= l < sd.len() && sd[l] == y;
                    assert(s[l] == y);
                } else {
                    assert(s[s.len() - 1] == y);
                }
            }
        } else {
            assert(t == td);
            assert forall|x: Seq<char>| #[trigger] has_key(t, x) == (has_key(s, x) && !has_id(
                ids,
                x,
            )) by {
                lemma_key_index_props(td, x);
            }
            assert forall|x: Seq<char>| has_key(t, x) implies #[trigger] val_of(t, x) == val_of(
                s,
                x,
            ) by {
                lemma_key_index_props(t, x);
                lemma_key_index_props(s, x);
                lemma_key_index_props(sd, x);
                assert(x != e.key@);
                assert(val_of(td, x) == val_of(sd, x));
                assert(s[key_index(s, x)] == sd[key_index(sd, x)]);
            }
            assert forall|y: IdEntry<T>| #[trigger] t.contains(y) implies s.contains(y) by {
                let l = choose|l: int| 0 <= l < sd.len() && sd[l] == y;
                assert(s[l] == y);
            }
        }
    }
}

impl<T> IdMap<T> {
    /// Drop every entry whose key is in `gone`.
    pub fn retain_without(&mut self, gone: &IdSet)
        requires
            old(self).wf(),
        ensures
            final(self)@ == without_keys(old(self)@, gone@),
            final(self).wf(),
            forall|x: Seq<char>| #[trigger] has_key(final(self)@, x) == (has_key(old(self)@, x)
                && !has_id(gone@, x)),
            forall|x: Seq<char>| has_key(final(self)@, x) ==> #[trigger] val_of(final(self)@, x)
                == val_of(old(self)@, x),
    {
        let ghost s0 = self@;
        let mut source: Vec<IdEntry<T>> = Vec::new();
        core::mem::swap(&mut source, &mut self.entries);
        let mut kept: Vec<IdEntry<T>> = Vec::new();
        let ghost mut seen: int = 0;
        proof {
            reveal(Seq::filter);
            assert(s0.subrange(0, 0) =~= Seq::<IdEntry<T>>::empty());
            assert(without_keys(Seq::<IdEntry<T>>::empty(), gone@) =~= Seq::<IdEntry<T>>::empty());
        }
        while source.len() > 0
            invariant
                seen + source@.len() == s0.len(),
                0 <= seen <= s0.len(),
                source@ == s0.skip(seen),
                kept@ == without_keys(s0.subrange(0, seen), gone@),
            decreases source@.len(),
        {
            let e = source.remove(0);
            proof {
                reveal(Seq::filter);
                assert(e == s0[seen]);
                assert(source@ =~= s0.skip(seen + 1));
                let pre = s0.subrange(0, seen);
                let cur = s0.subrange(0, seen + 1);
                assert(cur.drop_last() =~= pre);
                assert(cur.last() == s0[seen]);
            }
            if !gone.contains(e.key.as_str()) {
                kept.push(e);
                proof {
                    assert(without_keys(s0.subrange(0, seen + 1), gone@) == without_keys(
                        s0.subrange(0, seen),
                        gone@,
                    ).push(s0[seen]));
                }
            } else {
                proof {
                    assert(without_keys(s0.subrange(0, seen + 1), gone@) == without_keys(
                        s0.subrange(0, seen),
                        gone@,
                    ));
                }
            }
            proof {
                seen = seen + 1;
            }
        }
        core::mem::swap(&mut kept, &mut self.entries);
        proof {
            assert(s0.subrange(0, s0.len() as int) =~= s0);
            lemma_without_keys(s0, gone@);
        }
    }
}


/// What a map-style upsert leaves behind.
pub open spec fn upsert_rel<T>(pre: Seq<IdEntry<T>>, post: Seq<IdEntry<T>>, k: Seq<char>, v: T) -> bool {
    &&& has_key(post, k)
    &&& val_of(post, k) == v
    &&& forall|x: Seq<char>| x != k ==> #[trigger] has_key(post, x) == has_key(pre, x)
    &&& post.len() == pre.len() + (if has_key(pre, k) {
        0int
    } else {
        1int
    })
}

/// Repeated upserts under one key occupy exactly one slot, and the latest
/// value wins: after a second upsert the length has grown by at most one
/// over the original, and the key maps to the second value.
pub proof fn lemma_upsert_single_slot<T>(
    m0: Seq<IdEntry<T>>,
    m1: Seq<IdEntry<T>>,
    m2: Seq<IdEntry<T>>,
    k: Seq<char>,
    v1: T,
    v2: T,
)
    requires
        upsert_rel(m0, m1, k, v1),
        upsert_rel(m1, m2, k, v2),
    ensures
        m2.len() == m0.len() + (if has_key(m0, k) {
            0int
        } else {
            1int
        }),
        has_key(m2, k),
        val_of(m2, k) == v2,
{
}

} // verus!
