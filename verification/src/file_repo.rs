//! The artifact store: the bytes of each published version, behind a read
//! cache, and the place of each artifact in a directory tree.

use crate::text::same_text;
use crate::version::{decimal, decimal_reads_back, decimal_text, Version};
use vstd::prelude::*;

verus! {

/// The key of an artifact: package id and version.
pub type Key = (Seq<char>, Version);

struct Entry {
    id: String,
    version: Version,
    contents: Vec<u8>,
}

/// A keyed store of byte sequences, one per `(id, version)`.
pub struct Artifacts {
    entries: Vec<Entry>,
}

impl View for Artifacts {
    type V = Map<Key, Seq<u8>>;

    closed spec fn view(&self) -> Map<Key, Seq<u8>> {
        Map::new(|k: Key| self.has(k), |k: Key| self.entries[self.slot(k)].contents@)
    }
}

/// A copy of `bytes`.
fn copy_of(bytes: &Vec<u8>) -> (copy: Vec<u8>)
    ensures
        copy@ == bytes@,
{
    let mut copy: Vec<u8> = Vec::new();
    let mut i: usize = 0;
    while i < bytes.len()
        invariant
            0 <= i <= bytes.len(),
            copy@ == bytes@.take(i as int),
        decreases bytes.len() - i,
    {
        copy.push(bytes[i]);
        assert(copy@ =~= bytes@.take(i + 1));
        i += 1;
    }
    assert(copy@ =~= bytes@);
    copy
}

impl Artifacts {
    spec fn key_at(self, i: int) -> Key {
        (self.entries[i].id@, self.entries[i].version)
    }

    spec fn has(self, k: Key) -> bool {
        exists|i: int| 0 <= i < self.entries.len() && #[trigger] self.key_at(i) == k
    }

    spec fn slot(self, k: Key) -> int {
        choose|i: int| 0 <= i < self.entries.len() && #[trigger] self.key_at(i) == k
    }

    /// The store's invariant: no key is stored twice.
    pub closed spec fn wf(self) -> bool {
        forall|i: int, j: int|
            0 <= i < j < self.entries.len() ==> #[trigger] self.key_at(i) != #[trigger] self.key_at(
                j,
            )
    }

    proof fn slot_of(self, i: int)
        requires
            self.wf(),
            0 <= i < self.entries.len(),
        ensures
            self.has(self.key_at(i)),
            self.slot(self.key_at(i)) == i,
            self@.dom().contains(self.key_at(i)),
            self@[self.key_at(i)] == self.entries[i].contents@,
    {
    }

    /// Where every entry keeps its place and its key, the entries other
    /// than `key` keep their bytes, and any entry added is for `key`, every
    /// other key reads as before.
    proof fn others_stay(self, after: Artifacts, key: Key)
        requires
            self.wf(),
            after.wf(),
            self.entries.len() <= after.entries.len(),
            forall|i: int| 0 <= i < self.entries.len() ==> #[trigger] after.key_at(i) == self.key_at(i),
            forall|i: int|
                0 <= i < self.entries.len() && self.key_at(i) != key ==> (
                #[trigger] after.entries[i]).contents@ == self.entries[i].contents@,
            forall|i: int|
                self.entries.len() <= i < after.entries.len() ==> #[trigger] after.key_at(i) == key,
        ensures
            forall|k: Key|
                k != key ==> (#[trigger] after.has(k)) == self.has(k) && (self.has(k) ==> after@[k]
                    == self@[k]),
    {
        assert forall|k: Key| k != key implies (#[trigger] after.has(k)) == self.has(k) && (
        self.has(k) ==> after@[k] == self@[k]) by {
            if self.has(k) {
                let i = self.slot(k);
                self.slot_of(i);
                after.slot_of(i);
            }
            if after.has(k) {
                let i = after.slot(k);
                assert(self.key_at(i) == k);
            }
        }
    }

    /// An empty store.
    pub fn new() -> (store: Artifacts)
        ensures
            store.wf(),
            store@ == Map::<Key, Seq<u8>>::empty(),
    {
        let store: Artifacts = Artifacts { entries: Vec::new() };
        assert(store@ =~= Map::<Key, Seq<u8>>::empty());
        store
    }

    fn find(&self, id: &str, ver: &Version) -> (found: Option<usize>)
        requires
            self.wf(),
        ensures
            found is Some == self@.dom().contains((id@, *ver)),
            found matches Some(i) ==> i < self.entries.len() && self.key_at(i as int) == (id@, *ver)
                && self.slot((id@, *ver)) == i,
    {
        let mut i: usize = 0;
        while i < self.entries.len()
            invariant
                self.wf(),
                0 <= i <= self.entries.len(),
                forall|k: int| 0 <= k < i ==> #[trigger] self.key_at(k) != (id@, *ver),
            decreases self.entries.len() - i,
        {
            if self.entries[i].version == *ver && same_text(self.entries[i].id.as_str(), id) {
                proof {
                    self.slot_of(i as int);
                }
                return Some(i);
            }
            i += 1;
        }
        None
    }

    /// The bytes stored under `(id, ver)`, if any.
    pub fn get(&self, id: &str, ver: &Version) -> (found: Option<Vec<u8>>)
        requires
            self.wf(),
        ensures
            found is Some == self@.dom().contains((id@, *ver)),
            found matches Some(bytes) ==> bytes@ == self@[(id@, *ver)],
    {
        match self.find(id, ver) {
            Some(i) => {
                proof {
                    self.slot_of(i as int);
                }
                Some(copy_of(&self.entries[i].contents))
            },
            None => None,
        }
    }

    /// Stores `contents` under `(id, ver)`, in place of what was there.
    pub fn put(&mut self, id: &str, ver: &Version, contents: Vec<u8>)
        requires
            old(self).wf(),
        ensures
            final(self).wf(),
            final(self)@ == old(self)@.insert((id@, *ver), contents@),
    {
        let ghost before = *self;
        let ghost key = (id@, *ver);
        let ghost bytes = contents@;
        match self.find(id, ver) {
            Some(p) => {
                self.entries.remove(p);
                self.entries.insert(p, Entry { id: id.to_owned(), version: *ver, contents });
                proof {
                    assert forall|i: int| 0 <= i < self.entries.len() implies #[trigger] self.key_at(
                        i,
                    ) == before.key_at(i) by {}
                    assert(self.wf());
                    self.slot_of(p as int);
                    before.others_stay(*self, key);
                    assert(self@ =~= before@.insert(key, bytes));
                }
            },
            None => {
                self.entries.push(Entry { id: id.to_owned(), version: *ver, contents });
                proof {
                    let n = before.entries.len() as int;
                    assert forall|i: int| 0 <= i < n implies #[trigger] self.key_at(i)
                        == before.key_at(i) by {}
                    assert(self.wf());
                    self.slot_of(n);
                    before.others_stay(*self, key);
                    assert(self@ =~= before@.insert(key, bytes));
                }
            },
        }
    }

    /// Removes what is stored under `(id, ver)`. Says whether anything was.
    pub fn remove(&mut self, id: &str, ver: &Version) -> (removed: bool)
        requires
            old(self).wf(),
        ensures
            final(self).wf(),
            removed == old(self)@.dom().contains((id@, *ver)),
            final(self)@ == old(self)@.remove((id@, *ver)),
            !removed ==> *final(self) == *old(self),
    {
        let ghost before = *self;
        let ghost key = (id@, *ver);
        match self.find(id, ver) {
            Some(p) => {
                self.entries.remove(p);
                proof {
                    assert forall|i: int| 0 <= i < self.entries.len() implies #[trigger] self.key_at(
                        i,
                    ) == before.key_at(if i < p { i } else { i + 1 }) by {}
                    assert(self.wf());
                    assert forall|k: Key| k != key implies (self.has(k) == before.has(k) && (
                    before.has(k) ==> self@[k] == before@[k])) by {
                        if before.has(k) {
                            let a = before.slot(k);
                            before.slot_of(a);
                            let i = if a < p { a } else { a - 1 };
                            assert(self.key_at(i) == k);
                            self.slot_of(i);
                        }
                        if self.has(k) {
                            let i = self.slot(k);
                            let a = if i < p { i } else { i + 1 };
                            assert(before.key_at(a) == k);
                        }
                    }
                    assert(!self.has(key)) by {
                        if self.has(key) {
                            let i = self.slot(key);
                            let a = if i < p { i } else { i + 1 };
                            assert(before.key_at(a) == key);
                        }
                    }
                    assert(self@ =~= before@.remove(key));
                }
                true
            },
            None => {
                assert(self@ =~= before@.remove(key));
                false
            },
        }
    }

    /// Whether no stored key lies in the directory that holds `(id, ver)`
    /// and stands `level` steps above its leaf.
    pub fn none_within(&self, id: &str, ver: &Version, level: usize) -> (empty: bool)
        requires
            self.wf(),
        ensures
            empty == nothing_within(self@, (id@, *ver), level as nat),
    {
        let mut i: usize = 0;
        while i < self.entries.len()
            invariant
                self.wf(),
                0 <= i <= self.entries.len(),
                forall|j: int|
                    0 <= j < i ==> !within(#[trigger] self.key_at(j), (id@, *ver), level as nat),
            decreases self.entries.len() - i,
        {
            let e: &Entry = &self.entries[i];
            let inside: bool = same_text(e.id.as_str(), id) && (level >= 2 || (e.version.major
                == ver.major && (level >= 1 || e.version.minor == ver.minor)));
            if inside {
                proof {
                    self.slot_of(i as int);
                }
                return false;
            }
            i += 1;
        }
        proof {
            assert forall|k: Key| #[trigger] self@.dom().contains(k) implies !within(
                k,
                (id@, *ver),
                level as nat,
            ) by {
                let j = self.slot(k);
                assert(self.key_at(j) == k);
            }
        }
        true
    }
}

/// The number of directories that lead from the root of the tree to an
/// artifact: one for the id, one for the major and one for the minor number.
pub const DIRECTORY_DEPTH: usize = 3;

/// Where the artifact of `(id, v)` lies below the root of the tree:
/// `{id}/{major}/{minor}/{patch}`, one element for each step.
pub open spec fn path_of(id: Seq<char>, v: Version) -> Seq<Seq<char>> {
    seq![id, decimal(v.major as nat), decimal(v.minor as nat), decimal(v.patch as nat)]
}

/// The directory `level` steps above the leaf of `(id, v)`: level 0 is
/// `{id}/{major}/{minor}`, level 2 is `{id}`.
pub open spec fn directory_of(id: Seq<char>, v: Version, level: nat) -> Seq<Seq<char>> {
    path_of(id, v).take(DIRECTORY_DEPTH - level)
}

/// Whether the artifact of `k` lies in the directory `level` steps above the
/// leaf of `of`.
pub open spec fn within(k: Key, of: Key, level: nat) -> bool {
    &&& k.0 == of.0
    &&& level >= 2 || k.1.major == of.1.major
    &&& level >= 1 || k.1.minor == of.1.minor
}

/// Whether the directory `level` steps above the leaf of `of` holds none of
/// the artifacts of `held`.
pub open spec fn nothing_within(held: Map<Key, Seq<u8>>, of: Key, level: nat) -> bool {
    forall|k: Key| #[trigger] held.dom().contains(k) ==> !within(k, of, level)
}

/// The path of the artifact of `(id, ver)`, one element for each step.
pub fn artifact_path(id: &str, ver: &Version) -> (path: Vec<String>)
    ensures
        path.deep_view() == path_of(id@, *ver),
{
    let mut path: Vec<String> = Vec::new();
    path.push(id.to_owned());
    path.push(decimal_text(ver.major));
    path.push(decimal_text(ver.minor));
    path.push(decimal_text(ver.patch));
    assert(path.deep_view() =~= path_of(id@, *ver));
    path
}

/// The directories to clear away once the artifact of `(id, ver)` is gone,
/// innermost first: those that were made for this key, and no more.
pub fn cleanup_directories(id: &str, ver: &Version) -> (dirs: Vec<Vec<String>>)
    ensures
        dirs.len() == DIRECTORY_DEPTH,
        forall|level: int|
            0 <= level < DIRECTORY_DEPTH ==> (#[trigger] dirs[level]).deep_view() == directory_of(
                id@,
                *ver,
                level as nat,
            ),
{
    let mut inner: Vec<String> = Vec::new();
    inner.push(id.to_owned());
    inner.push(decimal_text(ver.major));
    inner.push(decimal_text(ver.minor));
    let mut middle: Vec<String> = Vec::new();
    middle.push(id.to_owned());
    middle.push(decimal_text(ver.major));
    let mut outer: Vec<String> = Vec::new();
    outer.push(id.to_owned());
    assert(inner.deep_view() =~= directory_of(id@, *ver, 0));
    assert(middle.deep_view() =~= directory_of(id@, *ver, 1));
    assert(outer.deep_view() =~= directory_of(id@, *ver, 2));
    let mut dirs: Vec<Vec<String>> = Vec::new();
    dirs.push(inner);
    dirs.push(middle);
    dirs.push(outer);
    dirs
}

/// Two keys never share a path: the path alone tells id and version.
pub proof fn paths_tell_keys_apart(a: Seq<char>, v: Version, b: Seq<char>, w: Version)
    requires
        path_of(a, v) == path_of(b, w),
    ensures
        a == b,
        v == w,
{
    assert(path_of(a, v)[0] == path_of(b, w)[0]);
    assert(path_of(a, v)[1] == path_of(b, w)[1]);
    assert(path_of(a, v)[2] == path_of(b, w)[2]);
    assert(path_of(a, v)[3] == path_of(b, w)[3]);
    decimal_reads_back(v.major as nat);
    decimal_reads_back(w.major as nat);
    decimal_reads_back(v.minor as nat);
    decimal_reads_back(w.minor as nat);
    decimal_reads_back(v.patch as nat);
    decimal_reads_back(w.patch as nat);
}

/// An artifact lies in a directory of another key's cleanup walk exactly
/// when its path starts with that directory.
pub proof fn within_means_prefix(k: Key, of: Key, level: nat)
    requires
        level < DIRECTORY_DEPTH,
    ensures
        within(k, of, level) <==> directory_of(of.0, of.1, level) == path_of(k.0, k.1).take(
            DIRECTORY_DEPTH - level,
        ),
{
    let d = directory_of(of.0, of.1, level);
    let p = path_of(k.0, k.1).take(DIRECTORY_DEPTH - level);
    decimal_reads_back(k.1.major as nat);
    decimal_reads_back(of.1.major as nat);
    decimal_reads_back(k.1.minor as nat);
    decimal_reads_back(of.1.minor as nat);
    if within(k, of, level) {
        assert(d =~= p);
    }
    if d == p {
        assert(d[0] == p[0]);
        if level < 2 {
            assert(d[1] == p[1]);
        }
        if level < 1 {
            assert(d[2] == p[2]);
        }
    }
}

/// The artifact store: what lies in durable storage, and a read cache in
/// front of it. The cache keeps the exact bytes.
pub struct FileRepo {
    cache: Artifacts,
    stored: Artifacts,
}

impl FileRepo {
    /// What the cache holds.
    pub closed spec fn cache(self) -> Map<Key, Seq<u8>> {
        self.cache@
    }

    /// What durable storage holds.
    pub closed spec fn stored(self) -> Map<Key, Seq<u8>> {
        self.stored@
    }

    pub closed spec fn wf(self) -> bool {
        self.cache.wf() && self.stored.wf()
    }

    /// What a read of `k` gives: the cached bytes, else the stored ones.
    pub open spec fn visible(self, k: Key) -> Option<Seq<u8>> {
        if self.cache().dom().contains(k) {
            Some(self.cache()[k])
        } else if self.stored().dom().contains(k) {
            Some(self.stored()[k])
        } else {
            None
        }
    }

    /// A store that holds nothing.
    pub fn new() -> (repo: FileRepo)
        ensures
            repo.wf(),
            repo.cache() == Map::<Key, Seq<u8>>::empty(),
            repo.stored() == Map::<Key, Seq<u8>>::empty(),
    {
        FileRepo { cache: Artifacts::new(), stored: Artifacts::new() }
    }

    /// Reads the artifact of `(id, ver)`: from the cache where it is there,
    /// else from storage, which fills the cache. `None` where neither has
    /// it.
    pub fn get_file(&mut self, id: String, ver: Version) -> (found: Option<Vec<u8>>)
        requires
            old(self).wf(),
        ensures
            final(self).wf(),
            final(self).stored() == old(self).stored(),
            match found {
                Some(bytes) => Some(bytes@) == old(self).visible((id@, ver)) && final(self).cache()
                    == old(self).cache().insert((id@, ver), bytes@),
                None => old(self).visible((id@, ver)) is None && final(self).cache() == old(
                    self,
                ).cache(),
            },
    {
        match self.cache.get(id.as_str(), &ver) {
            Some(bytes) => {
                assert(self.cache@ =~= self.cache@.insert((id@, ver), bytes@));
                Some(bytes)
            },
            None => {
                match self.stored.get(id.as_str(), &ver) {
                    Some(bytes) => {
                        self.cache.put(id.as_str(), &ver, copy_of(&bytes));
                        Some(bytes)
                    },
                    None => None,
                }
            },
        }
    }

    /// Stores the artifact of `(id, ver)`: in the cache first, then in
    /// storage, the bytes as they are.
    pub fn write_file(&mut self, id: String, ver: Version, contents: Vec<u8>)
        requires
            old(self).wf(),
        ensures
            final(self).wf(),
            final(self).cache() == old(self).cache().insert((id@, ver), contents@),
            final(self).stored() == old(self).stored().insert((id@, ver), contents@),
    {
        self.cache.put(id.as_str(), &ver, copy_of(&contents));
        self.stored.put(id.as_str(), &ver, contents);
    }

    /// Removes the artifact of `(id, ver)` from storage. Says whether it was
    /// there. The cache is left as it is.
    pub fn remove_file(&mut self, id: &str, ver: &Version) -> (removed: bool)
        requires
            old(self).wf(),
        ensures
            final(self).wf(),
            removed == old(self).stored().dom().contains((id@, *ver)),
            final(self).stored() == old(self).stored().remove((id@, *ver)),
            final(self).cache() == old(self).cache(),
            !removed ==> *final(self) == *old(self),
    {
        self.stored.remove(id, ver)
    }

    /// Removes the directory `level` steps above the leaf of `(id, ver)` if
    /// nothing is stored in it. Says whether it did. Storage keeps no empty
    /// directories, so its contents stay as they are.
    pub fn remove_dir(&self, id: &str, ver: &Version, level: usize) -> (removed: bool)
        requires
            self.wf(),
        ensures
            removed == nothing_within(self.stored(), (id@, *ver), level as nat),
    {
        self.stored.none_within(id, ver, level)
    }
}

} // verus!
