//! The registry: catalog, credentials and artifact store held together, and
//! the operations that a caller may ask of them.

use crate::catalog::{Catalog, Mod};
use crate::coordinator::{
    add_key_status, answer, delete_key_status, key_target, Answer, Delete, KeyTarget, Publish,
    Resolution, Status,
};
use crate::file_repo::{FileRepo, DIRECTORY_DEPTH};
use crate::keys::{AdminKeys, KeyStore, PublishKey};
use crate::requirement::Requirement;
use crate::version::Version;
use vstd::prelude::*;

verus! {

/// The characters of a token, where one was given.
pub open spec fn token_text(token: Option<&str>) -> Option<Seq<char>> {
    match token {
        Some(t) => Some(t@),
        None => None,
    }
}

/// A registry whose stores live in memory.
pub struct Registry {
    pub catalog: Catalog,
    pub keys: KeyStore,
    pub admins: AdminKeys,
    pub files: FileRepo,
}

impl Registry {
    pub open spec fn wf(self) -> bool {
        self.catalog.wf() && self.keys.wf() && self.files.wf()
    }

    /// Whether `token` lets its bearer publish: it is a stored credential.
    pub open spec fn may_publish(self, token: Option<Seq<char>>) -> bool {
        token matches Some(t) && self.keys@.dom().contains(t)
    }

    /// Whether `token` is one of the admin tokens.
    pub open spec fn is_admin(self, token: Option<Seq<char>>) -> bool {
        token matches Some(t) && self.admins@.contains(t)
    }

    /// `after` and `status` are what a publish of `contents` under `(id, v)`
    /// with `token` leaves and reports.
    pub open spec fn uploaded(
        self,
        id: Seq<char>,
        v: Version,
        contents: Seq<u8>,
        token: Option<Seq<char>>,
        after: Registry,
        status: Status,
    ) -> bool {
        if !self.may_publish(token) {
            status == Status::Unauthorized && after == self
        } else if self.catalog.contains(id, v) {
            status == Status::Conflict && after == self
        } else {
            &&& status == Status::Created
            &&& self.catalog.with(id, v, after.catalog)
            &&& after.keys == self.keys
            &&& after.admins == self.admins
            &&& after.files.cache() == self.files.cache().insert((id, v), contents)
            &&& after.files.stored() == self.files.stored().insert((id, v), contents)
        }
    }

    /// `after` and `status` are what a delete of `(id, v)` with `token`
    /// leaves and reports.
    pub open spec fn deleted(
        self,
        id: Seq<char>,
        v: Version,
        token: Option<Seq<char>>,
        after: Registry,
        status: Status,
    ) -> bool {
        if !self.is_admin(token) {
            status == Status::Unauthorized && after == self
        } else if !self.files.stored().dom().contains((id, v)) {
            status == Status::NotFound && after == self
        } else {
            &&& after.keys == self.keys
            &&& after.admins == self.admins
            &&& after.files.cache() == self.files.cache()
            &&& after.files.stored() == self.files.stored().remove((id, v))
            &&& if self.catalog.contains(id, v) {
                status == Status::Success && self.catalog.without(id, v, after.catalog)
            } else {
                status == Status::NotFound && after.catalog == self.catalog
            }
        }
    }

    /// `after` and `found` are what a download of `(id, v)` leaves and
    /// returns.
    pub open spec fn downloaded(
        self,
        id: Seq<char>,
        v: Version,
        after: Registry,
        found: Option<Seq<u8>>,
    ) -> bool {
        &&& found == self.files.visible((id, v))
        &&& after.catalog == self.catalog
        &&& after.keys == self.keys
        &&& after.admins == self.admins
        &&& after.files.stored() == self.files.stored()
        &&& after.files.cache() == match found {
            Some(bytes) => self.files.cache().insert((id, v), bytes),
            None => self.files.cache(),
        }
    }

    /// `after` and `status` are what adding the credential `(user, pw)` with
    /// `token` leaves and reports.
    pub open spec fn key_added(
        self,
        user: Seq<char>,
        pw: Seq<char>,
        token: Option<Seq<char>>,
        after: Registry,
        status: Status,
    ) -> bool {
        if !self.is_admin(token) {
            status == Status::Unauthorized && after == self
        } else if self.keys@.dom().contains(pw) {
            status == Status::Conflict && after == self
        } else {
            &&& status == Status::Created
            &&& after.keys@ == self.keys@.insert(pw, user)
            &&& after.catalog == self.catalog
            &&& after.admins == self.admins
            &&& after.files == self.files
        }
    }

    /// `after` and `status` are what removing credentials, named by token
    /// or else by user, with `token` leaves and reports.
    pub open spec fn key_deleted(
        self,
        pw: Option<Seq<char>>,
        user: Option<Seq<char>>,
        token: Option<Seq<char>>,
        after: Registry,
        status: Status,
    ) -> bool {
        if !self.is_admin(token) {
            status == Status::Unauthorized && after == self
        } else {
            &&& after.catalog == self.catalog
            &&& after.admins == self.admins
            &&& after.files == self.files
            &&& match (pw, user) {
                (Some(p), _) => {
                    &&& after.keys@ == self.keys@.remove(p)
                    &&& status == if self.keys@.dom().contains(p) {
                        Status::Success
                    } else {
                        Status::NotFound
                    }
                },
                (None, Some(u)) => {
                    &&& after.keys@ == self.keys@.remove_keys(self.keys.tokens_of(u))
                    &&& status == if self.keys.has_user(u) {
                        Status::Success
                    } else {
                        Status::NotFound
                    }
                },
                (None, None) => status == Status::BadRequest && after.keys == self.keys,
            }
        }
    }

    /// An empty registry with the given admin tokens.
    pub fn new(admins: AdminKeys) -> (registry: Registry)
        ensures
            registry.wf(),
            registry.admins == admins,
            registry.keys@ == Map::<Seq<char>, Seq<char>>::empty(),
            registry.catalog.ids() == Seq::<Seq<char>>::empty(),
            forall|id: Seq<char>|
                (#[trigger] registry.catalog.versions_of(id)) == Seq::<Version>::empty(),
            registry.files.cache() == Map::<(Seq<char>, Version), Seq<u8>>::empty(),
            registry.files.stored() == Map::<(Seq<char>, Version), Seq<u8>>::empty(),
    {
        Registry { catalog: Catalog::new(), keys: KeyStore::new(), admins, files: FileRepo::new() }
    }

    /// Whether `token` is a stored publisher credential.
    pub fn auth(&self, token: Option<&str>) -> (allowed: bool)
        requires
            self.wf(),
        ensures
            allowed == self.may_publish(token_text(token)),
    {
        match token {
            Some(t) => PublishKey::resolve_one(t, &self.keys).is_some(),
            None => false,
        }
    }

    /// Whether `token` is an admin token.
    pub fn auth_admin(&self, token: Option<&str>) -> (allowed: bool)
        ensures
            allowed == self.is_admin(token_text(token)),
    {
        match token {
            Some(t) => self.admins.contains(t),
            None => false,
        }
    }

    /// The ids of all packages that have a version.
    pub fn list(&self) -> (ids: Vec<String>)
        requires
            self.wf(),
        ensures
            ids.deep_view() == self.catalog.ids(),
    {
        Mod::list(&self.catalog)
    }

    /// Answers a resolve query for package `id`.
    pub fn resolve(&self, id: &str, req: &Requirement, limit: usize) -> (found: Resolution)
        requires
            self.wf(),
        ensures
            found.answers(id@, self.catalog.versions_of(id@), *req, limit as nat),
    {
        let versions: Vec<Version> = self.catalog.versions_descending(id);
        answer(id, &versions, req, limit)
    }

    /// Reads the artifact of `(id, ver)`; `None` where there is none.
    pub fn download(&mut self, id: &str, ver: &Version) -> (found: Option<Vec<u8>>)
        requires
            old(self).wf(),
        ensures
            final(self).wf(),
            old(self).downloaded(
                id@,
                *ver,
                *final(self),
                match found {
                    Some(bytes) => Some(bytes@),
                    None => None,
                },
            ),
    {
        self.files.get_file(id.to_owned(), *ver)
    }

    /// Publishes `contents` as the artifact of `(id, ver)`.
    pub fn upload(&mut self, id: &str, ver: &Version, contents: Vec<u8>, token: Option<&str>) -> (status:
        Status)
        requires
            old(self).wf(),
        ensures
            final(self).wf(),
            old(self).uploaded(id@, *ver, contents@, token_text(token), *final(self), status),
    {
        let first: Publish = Publish::start(token.is_some());
        if let Publish::Done(status) = first {
            return status;
        }
        let known: bool = self.auth(token);
        let second: Publish = first.step(Answer::of(known));
        if let Publish::Done(status) = second {
            return status;
        }
        let inserted: bool = Mod::insert(id, ver, &mut self.catalog);
        let third: Publish = second.step(Answer::of(inserted));
        if let Publish::Done(status) = third {
            return status;
        }
        self.files.write_file(id.to_owned(), *ver, contents);
        match third.step(Answer::Yes) {
            Publish::Done(status) => status,
            _ => Status::InternalError,
        }
    }

    /// Deletes the artifact of `(id, ver)` and its catalog row.
    pub fn delete(&mut self, id: &str, ver: &Version, token: Option<&str>) -> (status: Status)
        requires
            old(self).wf(),
        ensures
            final(self).wf(),
            old(self).deleted(id@, *ver, token_text(token), *final(self), status),
    {
        let first: Delete = Delete::start(self.auth_admin(token));
        if let Delete::Done(status) = first {
            return status;
        }
        let removed: bool = self.files.remove_file(id, ver);
        let mut run: Delete = first.step(Answer::of(removed));
        if let Delete::Done(status) = run {
            return status;
        }
        let ghost cleared = *self;
        loop
            invariant
                *self == cleared,
                self.wf(),
                run == Delete::DeleteRow || (run matches Delete::RemoveDirectory(level) && level
                    < DIRECTORY_DEPTH),
            ensures
                run == Delete::DeleteRow,
            decreases
                    (if let Delete::RemoveDirectory(level) = run {
                        DIRECTORY_DEPTH - level
                    } else {
                        0
                    }),
        {
            match run {
                Delete::RemoveDirectory(level) => {
                    let gone: bool = self.files.remove_dir(id, ver, level);
                    run = run.step(Answer::of(gone));
                },
                _ => {
                    break ;
                },
            }
        }
        let deleted: bool = Mod::delete(id, ver, &mut self.catalog);
        match run.step(Answer::of(deleted)) {
            Delete::Done(status) => status,
            _ => Status::InternalError,
        }
    }

    /// Stores the publisher credential `(user, pw)`.
    pub fn add_key(&mut self, user: &str, pw: &str, token: Option<&str>) -> (status: Status)
        requires
            old(self).wf(),
        ensures
            final(self).wf(),
            old(self).key_added(user@, pw@, token_text(token), *final(self), status),
    {
        if !self.auth_admin(token) {
            return Status::Unauthorized;
        }
        let inserted: bool = PublishKey::insert(user, pw, &mut self.keys);
        add_key_status(Answer::of(inserted))
    }

    /// Removes the credential with token `pw` where one is named, else every
    /// credential of `user`.
    pub fn delete_key(&mut self, pw: Option<&str>, user: Option<&str>, token: Option<&str>) -> (status:
        Status)
        requires
            old(self).wf(),
        ensures
            final(self).wf(),
            old(self).key_deleted(
                token_text(pw),
                token_text(user),
                token_text(token),
                *final(self),
                status,
            ),
    {
        if !self.auth_admin(token) {
            return Status::Unauthorized;
        }
        match key_target(pw.is_some(), user.is_some()) {
            KeyTarget::Token => {
                let deleted: bool = match pw {
                    Some(p) => PublishKey::delete_pw(p, &mut self.keys),
                    None => false,
                };
                delete_key_status(Answer::of(deleted))
            },
            KeyTarget::User => {
                let deleted: bool = match user {
                    Some(u) => PublishKey::delete_user(u, &mut self.keys),
                    None => false,
                };
                delete_key_status(Answer::of(deleted))
            },
            KeyTarget::Neither => Status::BadRequest,
        }
    }
}

} // verus!
