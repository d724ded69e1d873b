//! Credentials: publisher tokens with their owners, and the admin tokens.

use crate::text::same_text;
use vstd::prelude::*;

verus! {

/// A publisher credential: the secret token `pw` and the user who owns it.
#[derive(Clone, Debug, PartialEq, Eq)]
pub struct PublishKey {
    pub pw: String,
    pub user: String,
}

/// The credential store. A token occurs at most once; a user may own many.
pub struct KeyStore {
    keys: Vec<PublishKey>,
}

impl View for KeyStore {
    type V = Map<Seq<char>, Seq<char>>;

    /// The owner of each token.
    closed spec fn view(&self) -> Map<Seq<char>, Seq<char>> {
        Map::new(|pw: Seq<char>| self.has(pw), |pw: Seq<char>| self.keys[self.slot(pw)].user@)
    }
}

impl KeyStore {
    spec fn has(self, pw: Seq<char>) -> bool {
        exists|i: int| 0 <= i < self.keys.len() && (#[trigger] self.keys[i]).pw@ == pw
    }

    spec fn slot(self, pw: Seq<char>) -> int {
        choose|i: int| 0 <= i < self.keys.len() && (#[trigger] self.keys[i]).pw@ == pw
    }

    /// The store's invariant: no token is stored twice.
    pub closed spec fn wf(self) -> bool {
        forall|i: int, j: int|
            0 <= i < j < self.keys.len() ==> (#[trigger] self.keys[i]).pw@ != (
            #[trigger] self.keys[j]).pw@
    }

    /// The tokens that belong to `user`.
    pub open spec fn tokens_of(self, user: Seq<char>) -> Set<Seq<char>> {
        Set::new(|pw: Seq<char>| self@.dom().contains(pw) && self@[pw] == user)
    }

    /// Whether some token belongs to `user`.
    pub open spec fn has_user(self, user: Seq<char>) -> bool {
        exists|pw: Seq<char>| self@.dom().contains(pw) && #[trigger] self@[pw] == user
    }

    proof fn slot_of(self, i: int)
        requires
            self.wf(),
            0 <= i < self.keys.len(),
        ensures
            self.has(self.keys[i].pw@),
            self.slot(self.keys[i].pw@) == i,
            self@.dom().contains(self.keys[i].pw@),
            self@[self.keys[i].pw@] == self.keys[i].user@,
    {
    }

    /// An empty store.
    pub fn new() -> (store: KeyStore)
        ensures
            store.wf(),
            store@ == Map::<Seq<char>, Seq<char>>::empty(),
    {
        let store: KeyStore = KeyStore { keys: Vec::new() };
        assert(store@ =~= Map::<Seq<char>, Seq<char>>::empty());
        store
    }

    fn find(&self, pw: &str) -> (found: Option<usize>)
        requires
            self.wf(),
        ensures
            found is Some == self@.dom().contains(pw@),
            found matches Some(i) ==> i < self.keys.len() && self.keys[i as int].pw@ == pw@
                && self.slot(pw@) == i,
    {
        let mut i: usize = 0;
        while i < self.keys.len()
            invariant
                self.wf(),
                0 <= i <= self.keys.len(),
                forall|k: int| 0 <= k < i ==> (#[trigger] self.keys[k]).pw@ != pw@,
            decreases self.keys.len() - i,
        {
            if same_text(self.keys[i].pw.as_str(), pw) {
                proof {
                    self.slot_of(i as int);
                }
                return Some(i);
            }
            i += 1;
        }
        None
    }
}

impl PublishKey {
    /// Stores the token `pw` for `user` unless the token is already there.
    /// Says whether it was added.
    pub fn insert(user: &str, pw: &str, store: &mut KeyStore) -> (inserted: bool)
        requires
            old(store).wf(),
        ensures
            final(store).wf(),
            inserted == !old(store)@.dom().contains(pw@),
            inserted ==> final(store)@ == old(store)@.insert(pw@, user@),
            !inserted ==> *final(store) == *old(store),
    {
        let ghost before = *store;
        match store.find(pw) {
            Some(_) => false,
            None => {
                store.keys.push(PublishKey { pw: pw.to_owned(), user: user.to_owned() });
                proof {
                    let n = before.keys.len() as int;
                    assert forall|i: int| 0 <= i < n implies (#[trigger] store.keys[i])
                        == before.keys[i] by {}
                    assert(store.wf());
                    store.slot_of(n);
                    assert forall|t: Seq<char>| t != pw@ implies (store.has(t) == before.has(t)
                        && (before.has(t) ==> store.slot(t) == before.slot(t))) by {
                        if before.has(t) {
                            let i = before.slot(t);
                            before.slot_of(i);
                            store.slot_of(i);
                        }
                        if store.has(t) {
                            let i = store.slot(t);
                            assert(before.keys[i].pw@ == t);
                        }
                    }
                    assert(store@ =~= before@.insert(pw@, user@));
                }
                true
            },
        }
    }

    /// The credential that holds the token `key`, if there is one.
    pub fn resolve_one(key: &str, store: &KeyStore) -> (found: Option<PublishKey>)
        requires
            store.wf(),
        ensures
            found is Some == store@.dom().contains(key@),
            found matches Some(k) ==> k.pw@ == key@ && k.user@ == store@[key@],
    {
        match store.find(key) {
            Some(i) => {
                proof {
                    store.slot_of(i as int);
                }
                Some(PublishKey { pw: store.keys[i].pw.clone(), user: store.keys[i].user.clone() })
            },
            None => None,
        }
    }

    /// Removes the token `pw`. Says whether it was there.
    pub fn delete_pw(pw: &str, store: &mut KeyStore) -> (deleted: bool)
        requires
            old(store).wf(),
        ensures
            final(store).wf(),
            deleted == old(store)@.dom().contains(pw@),
            final(store)@ == old(store)@.remove(pw@),
            !deleted ==> *final(store) == *old(store),
    {
        let ghost before = *store;
        match store.find(pw) {
            Some(p) => {
                store.keys.remove(p);
                proof {
                    assert forall|i: int| 0 <= i < store.keys.len() implies (
                    #[trigger] store.keys[i]) == before.keys[if i < p {
                        i
                    } else {
                        i + 1
                    }] by {}
                    assert(store.wf());
                    assert forall|t: Seq<char>| t != pw@ implies (store.has(t) == before.has(t)
                        && (before.has(t) ==> store.keys[store.slot(t)].user@
                        == before.keys[before.slot(t)].user@)) by {
                        if before.has(t) {
                            let a = before.slot(t);
                            before.slot_of(a);
                            let i = if a < p { a } else { a - 1 };
                            store.slot_of(i);
                        }
                        if store.has(t) {
                            let i = store.slot(t);
                            let a = if i < p { i } else { i + 1 };
                            assert(before.keys[a].pw@ == t);
                        }
                    }
                    assert(!store.has(pw@)) by {
                        if store.has(pw@) {
                            let i = store.slot(pw@);
                            let a = if i < p { i } else { i + 1 };
                            assert(before.keys[a].pw@ == pw@);
                        }
                    }
                    assert(store@ =~= before@.remove(pw@));
                }
                true
            },
            None => {
                assert(store@ =~= before@.remove(pw@));
                false
            },
        }
    }

    /// Removes every token of `user`. Says whether there was one.
    pub fn delete_user(user: &str, store: &mut KeyStore) -> (deleted: bool)
        requires
            old(store).wf(),
        ensures
            final(store).wf(),
            deleted == old(store).has_user(user@),
            final(store)@ == old(store)@.remove_keys(old(store).tokens_of(user@)),
            !deleted ==> *final(store) == *old(store),
    {
        let ghost before = *store;
        let mut kept: Vec<PublishKey> = Vec::new();
        let ghost mut origin: Seq<int> = Seq::empty();
        let mut deleted: bool = false;
        let mut i: usize = 0;
        while i < store.keys.len()
            invariant
                *store == before,
                before.wf(),
                0 <= i <= store.keys.len(),
                origin.len() == kept.len(),
                forall|k: int|
                    0 <= k < kept.len() ==> 0 <= #[trigger] origin[k] < i && kept[k].pw@
                        == before.keys[origin[k]].pw@ && kept[k].user@
                        == before.keys[origin[k]].user@ && kept[k].user@ != user@,
                forall|k: int, l: int| 0 <= k < l < kept.len() ==> origin[k] < origin[l],
                forall|j: int|
                    0 <= j < i && (#[trigger] before.keys[j]).user@ != user@ ==> exists|k: int|
                        0 <= k < kept.len() && #[trigger] origin[k] == j,
                deleted == exists|j: int| 0 <= j < i && (#[trigger] before.keys[j]).user@ == user@,
            decreases store.keys.len() - i,
        {
            let ghost prev = origin;
            if same_text(store.keys[i].user.as_str(), user) {
                deleted = true;
            } else {
                kept.push(
                    PublishKey { pw: store.keys[i].pw.clone(), user: store.keys[i].user.clone() },
                );
                proof {
                    origin = origin.push(i as int);
                    assert(origin[kept.len() - 1] == i);
                }
            }
            proof {
                assert forall|j: int|
                    0 <= j < i + 1 && (#[trigger] before.keys[j]).user@ != user@ implies exists|
                    k: int,
                | 0 <= k < kept.len() && #[trigger] origin[k] == j by {
                    if j < i {
                        let k = choose|k: int| 0 <= k < prev.len() && #[trigger] prev[k] == j;
                        assert(origin[k] == j);
                    } else {
                        assert(origin[kept.len() - 1] == j);
                    }
                }
            }
            i += 1;
        }
        if !deleted {
            proof {
                let gone = before.tokens_of(user@);
                assert forall|t: Seq<char>| before@.dom().contains(t) implies !gone.contains(
                    t,
                ) by {
                    let j = before.slot(t);
                    assert(before.keys[j].user@ != user@);
                }
                assert(before@ =~= before@.remove_keys(gone));
                if before.has_user(user@) {
                    let t = choose|t: Seq<char>|
                        before@.dom().contains(t) && #[trigger] before@[t] == user@;
                    assert(gone.contains(t));
                }
            }
            return false;
        }
        store.keys = kept;
        proof {
            let gone = before.tokens_of(user@);
            assert(store.wf()) by {
                assert forall|k: int, l: int| 0 <= k < l < store.keys.len() implies (
                #[trigger] store.keys[k]).pw@ != (#[trigger] store.keys[l]).pw@ by {
                    assert(origin[k] < origin[l]);
                }
            }
            assert forall|t: Seq<char>| #[trigger]
                store@.dom().contains(t) == before@.remove_keys(gone).dom().contains(t) && (
                store@.dom().contains(t) ==> store@[t] == before@[t]) by {
                if store.has(t) {
                    let k = store.slot(t);
                    store.slot_of(k);
                    before.slot_of(origin[k]);
                }
                if before.has(t) && before@[t] != user@ {
                    let j = before.slot(t);
                    before.slot_of(j);
                    let k = choose|k: int| 0 <= k < store.keys.len() && #[trigger] origin[k] == j;
                    store.slot_of(k);
                }
            }
            assert(store@ =~= before@.remove_keys(gone));
            if deleted {
                let j = choose|j: int|
                    0 <= j < before.keys.len() && (#[trigger] before.keys[j]).user@ == user@;
                before.slot_of(j);
                assert(before@[before.keys[j].pw@] == user@);
            }
            if before.has_user(user@) {
                let t = choose|t: Seq<char>| before@.dom().contains(t) && #[trigger] before@[t] == user@;
                let j = before.slot(t);
                assert(before.keys[j].user@ == user@);
            }
        }
        deleted
    }
}

/// The admin tokens: a fixed set, configured once, with no owners.
pub struct AdminKeys {
    keys: Vec<String>,
}

impl View for AdminKeys {
    type V = Set<Seq<char>>;

    closed spec fn view(&self) -> Set<Seq<char>> {
        Set::new(
            |t: Seq<char>| exists|i: int| 0 <= i < self.keys.len() && (#[trigger] self.keys[i])@ == t,
        )
    }
}

impl AdminKeys {
    /// The set that holds exactly the given tokens.
    pub fn new(keys: Vec<String>) -> (admins: AdminKeys)
        ensures
            forall|t: Seq<char>| admins@.contains(t) <==> keys.deep_view().contains(t),
    {
        let ghost given = keys.deep_view();
        let admins: AdminKeys = AdminKeys { keys };
        proof {
            assert forall|t: Seq<char>| admins@.contains(t) <==> given.contains(t) by {
                if admins@.contains(t) {
                    let i = choose|i: int|
                        0 <= i < admins.keys.len() && (#[trigger] admins.keys[i])@ == t;
                    assert(given[i] == t);
                }
                if given.contains(t) {
                    let i = choose|i: int| 0 <= i < given.len() && given[i] == t;
                    assert(admins.keys[i]@ == t);
                }
            }
        }
        admins
    }

    /// Whether `token` is an admin token.
    pub fn contains(&self, token: &str) -> (b: bool)
        ensures
            b == self@.contains(token@),
    {
        let mut i: usize = 0;
        while i < self.keys.len()
            invariant
                0 <= i <= self.keys.len(),
                forall|k: int| 0 <= k < i ==> (#[trigger] self.keys[k])@ != token@,
            decreases self.keys.len() - i,
        {
            if same_text(self.keys[i].as_str(), token) {
                return true;
            }
            i += 1;
        }
        false
    }
}

} // verus!
