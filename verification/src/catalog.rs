//! The version catalog: which `(package id, version)` pairs are published.

use crate::requirement::Requirement;
use crate::resolve::{first_n, matching, resolve};
use crate::text::same_text;
use crate::version::{strictly_descending, Version};
use vstd::prelude::*;

verus! {

/// One published version of one package.
#[derive(Clone, Debug, PartialEq, Eq)]
pub struct Mod {
    pub id: String,
    pub version: Version,
}

/// The versions of each record, in order.
pub open spec fn versions_in(mods: Seq<Mod>) -> Seq<Version> {
    Seq::new(mods.len(), |i: int| mods[i].version)
}

/// Every record belongs to the package `id`.
pub open spec fn all_of_package(mods: Seq<Mod>, id: Seq<char>) -> bool {
    forall|i: int| 0 <= i < mods.len() ==> (#[trigger] mods[i]).id@ == id
}

struct Package {
    id: String,
    versions: Vec<Version>,
}

/// The record store of published versions, grouped by package. No pair
/// `(id, version)` occurs twice.
pub struct Catalog {
    packages: Vec<Package>,
}

impl Catalog {
    spec fn has(self, id: Seq<char>) -> bool {
        exists|i: int| 0 <= i < self.packages.len() && (#[trigger] self.packages[i]).id@ == id
    }

    spec fn slot(self, id: Seq<char>) -> int {
        choose|i: int| 0 <= i < self.packages.len() && (#[trigger] self.packages[i]).id@ == id
    }

    /// The ids of the packages that have a version, in the order in which
    /// each was first published.
    pub closed spec fn ids(self) -> Seq<Seq<char>> {
        Seq::new(self.packages@.len(), |i: int| self.packages[i].id@)
    }

    /// The versions published for `id`, highest precedence first.
    pub closed spec fn versions_of(self, id: Seq<char>) -> Seq<Version> {
        if self.has(id) {
            self.packages[self.slot(id)].versions@
        } else {
            Seq::empty()
        }
    }

    /// Whether `(id, v)` is published.
    pub open spec fn contains(self, id: Seq<char>, v: Version) -> bool {
        self.versions_of(id).contains(v)
    }

    /// `after` is this catalog with `(id, v)` published as well.
    pub open spec fn with(self, id: Seq<char>, v: Version, after: Catalog) -> bool {
        &&& forall|w: Version| after.contains(id, w) <==> (self.contains(id, w) || w == v)
        &&& forall|other: Seq<char>|
            other != id ==> (#[trigger] after.versions_of(other)) == self.versions_of(other)
        &&& after.ids() == if self.ids().contains(id) {
            self.ids()
        } else {
            self.ids().push(id)
        }
    }

    /// `after` is this catalog with `(id, v)` withdrawn. A package that
    /// loses its last version is no longer listed.
    pub open spec fn without(self, id: Seq<char>, v: Version, after: Catalog) -> bool {
        &&& forall|w: Version| after.contains(id, w) <==> (self.contains(id, w) && w != v)
        &&& forall|other: Seq<char>|
            other != id ==> (#[trigger] after.versions_of(other)) == self.versions_of(other)
        &&& self.versions_of(id) == seq![v] ==> exists|k: int|
            0 <= k < self.ids().len() && self.ids()[k] == id && after.ids() == self.ids().remove(k)
        &&& self.versions_of(id) != seq![v] ==> after.ids() == self.ids()
    }

    /// The store's invariant: packages are distinct, and each holds at least
    /// one version, in strictly descending order.
    pub closed spec fn wf(self) -> bool {
        &&& forall|i: int, j: int|
            0 <= i < j < self.packages.len() ==> (#[trigger] self.packages[i]).id@ != (
            #[trigger] self.packages[j]).id@
        &&& forall|i: int|
            0 <= i < self.packages.len() ==> (#[trigger] self.packages[i]).versions.len() > 0
        &&& forall|i: int|
            0 <= i < self.packages.len() ==> strictly_descending(
                (#[trigger] self.packages[i]).versions@,
            )
    }

    proof fn slot_of(self, i: int)
        requires
            self.wf(),
            0 <= i < self.packages.len(),
        ensures
            self.has(self.packages[i].id@),
            self.slot(self.packages[i].id@) == i,
            self.versions_of(self.packages[i].id@) == self.packages[i].versions@,
    {
    }

    /// Where every package keeps its place, the packages other than `id`
    /// keep their versions, and any package added is `id`, the versions of
    /// every other package read as before.
    proof fn others_stay(self, after: Catalog, id: Seq<char>)
        requires
            self.wf(),
            after.wf(),
            self.packages.len() <= after.packages.len(),
            forall|i: int|
                0 <= i < self.packages.len() ==> (#[trigger] after.packages[i]).id@
                    == self.packages[i].id@,
            forall|i: int|
                0 <= i < self.packages.len() && self.packages[i].id@ != id ==> (
                #[trigger] after.packages[i]).versions@ == self.packages[i].versions@,
            forall|i: int|
                self.packages.len() <= i < after.packages.len() ==> (
                #[trigger] after.packages[i]).id@ == id,
        ensures
            forall|other: Seq<char>|
                other != id ==> (#[trigger] after.versions_of(other)) == self.versions_of(other),
    {
        assert forall|other: Seq<char>| other != id implies (#[trigger] after.versions_of(other))
            == self.versions_of(other) by {
            if self.has(other) {
                let i = self.slot(other);
                self.slot_of(i);
                after.slot_of(i);
            } else {
                if after.has(other) {
                    let i = after.slot(other);
                    assert(self.packages[i].id@ == other);
                }
            }
        }
    }

    /// What the invariant means for the store's contents.
    pub proof fn invariant_holds(self)
        requires
            self.wf(),
        ensures
            self.ids().no_duplicates(),
            forall|id: Seq<char>| strictly_descending(#[trigger] self.versions_of(id)),
            forall|id: Seq<char>| self.ids().contains(id) <==> (#[trigger] self.versions_of(id)).len() > 0,
    {
        assert forall|id: Seq<char>| self.ids().contains(id) <==> (#[trigger] self.versions_of(
            id,
        )).len() > 0 by {
            if self.ids().contains(id) {
                let i = choose|i: int| 0 <= i < self.ids().len() && self.ids()[i] == id;
                self.slot_of(i);
            }
            if self.versions_of(id).len() > 0 {
                assert(self.ids()[self.slot(id)] == id);
            }
        }
    }

    /// No version is published twice for a package, and no package is listed
    /// twice.
    pub proof fn pairs_are_unique(self, id: Seq<char>)
        requires
            self.wf(),
        ensures
            self.versions_of(id).no_duplicates(),
    {
        self.invariant_holds();
        let s = self.versions_of(id);
        assert forall|i: int, j: int| 0 <= i < s.len() && 0 <= j < s.len() && i != j implies s[i]
            != s[j] by {
            if i < j {
                assert(s[i].newer_than(s[j]));
            } else {
                assert(s[j].newer_than(s[i]));
            }
        }
    }

    /// An empty catalog.
    pub fn new() -> (catalog: Catalog)
        ensures
            catalog.wf(),
            catalog.ids() == Seq::<Seq<char>>::empty(),
            forall|id: Seq<char>| (#[trigger] catalog.versions_of(id)) == Seq::<Version>::empty(),
    {
        let catalog: Catalog = Catalog { packages: Vec::new() };
        assert(catalog.ids() =~= Seq::<Seq<char>>::empty());
        catalog
    }

    fn find(&self, id: &str) -> (found: Option<usize>)
        requires
            self.wf(),
        ensures
            found matches Some(i) ==> i < self.packages.len() && self.packages[i as int].id@ == id@,
            found is None ==> !self.has(id@),
            found is Some == self.has(id@),
            found matches Some(i) ==> self.slot(id@) == i,
    {
        let mut i: usize = 0;
        while i < self.packages.len()
            invariant
                self.wf(),
                0 <= i <= self.packages.len(),
                forall|k: int| 0 <= k < i ==> (#[trigger] self.packages[k]).id@ != id@,
            decreases self.packages.len() - i,
        {
            if same_text(self.packages[i].id.as_str(), id) {
                proof {
                    self.slot_of(i as int);
                }
                return Some(i);
            }
            i += 1;
        }
        None
    }

    /// All versions published for `id`, highest precedence first.
    pub fn versions_descending(&self, id: &str) -> (versions: Vec<Version>)
        requires
            self.wf(),
        ensures
            versions@ == self.versions_of(id@),
    {
        let mut out: Vec<Version> = Vec::new();
        match self.find(id) {
            Some(p) => {
                let stored: &Vec<Version> = &self.packages[p].versions;
                let mut i: usize = 0;
                while i < stored.len()
                    invariant
                        0 <= i <= stored.len(),
                        out@ == stored@.take(i as int),
                    decreases stored.len() - i,
                {
                    out.push(stored[i]);
                    assert(out@ =~= stored@.take(i + 1));
                    i += 1;
                }
                assert(out@ =~= stored@);
            },
            None => {},
        }
        out
    }
}

/// The first index of `versions` whose element is not newer than `v`.
fn place_of(versions: &Vec<Version>, v: &Version) -> (k: usize)
    requires
        strictly_descending(versions@),
    ensures
        k <= versions.len(),
        forall|i: int| 0 <= i < k ==> (#[trigger] versions[i]).newer_than(*v),
        forall|i: int| k <= i < versions.len() ==> !(#[trigger] versions[i]).newer_than(*v),
        versions@.contains(*v) <==> (k < versions.len() && versions[k as int] == *v),
{
    let mut k: usize = 0;
    while k < versions.len() && versions[k].is_newer_than(v)
        invariant
            0 <= k <= versions.len(),
            forall|i: int| 0 <= i < k ==> (#[trigger] versions[i]).newer_than(*v),
        decreases versions.len() - k,
    {
        k += 1;
    }
    proof {
        assert forall|i: int| k <= i < versions.len() implies !(#[trigger] versions[i]).newer_than(
            *v,
        ) by {
            if i > k {
                assert(versions[k as int].newer_than(versions[i]));
            }
        }
        if versions@.contains(*v) {
            let i = choose|i: int| 0 <= i < versions.len() && versions[i] == *v;
            if i > k {
                assert(versions[k as int].newer_than(versions[i]));
            }
        }
    }
    k
}

impl Mod {
    /// The ids of all packages that have at least one version.
    pub fn list(catalog: &Catalog) -> (ids: Vec<String>)
        requires
            catalog.wf(),
        ensures
            ids.deep_view() == catalog.ids(),
    {
        let mut ids: Vec<String> = Vec::new();
        let mut i: usize = 0;
        while i < catalog.packages.len()
            invariant
                0 <= i <= catalog.packages.len(),
                ids.len() == i,
                forall|k: int| 0 <= k < i ==> (#[trigger] ids[k])@ == catalog.packages[k].id@,
            decreases catalog.packages.len() - i,
        {
            ids.push(catalog.packages[i].id.clone());
            i += 1;
        }
        assert(ids.deep_view() =~= catalog.ids());
        ids
    }

    /// Publishes `(id, ver)` unless it is already there. Says whether it was
    /// added.
    pub fn insert(id: &str, ver: &Version, catalog: &mut Catalog) -> (inserted: bool)
        requires
            old(catalog).wf(),
        ensures
            final(catalog).wf(),
            inserted == !old(catalog).contains(id@, *ver),
            inserted ==> old(catalog).with(id@, *ver, *final(catalog)),
            !inserted ==> *final(catalog) == *old(catalog),
    {
        let ghost before = *catalog;
        proof {
            before.invariant_holds();
        }
        match catalog.find(id) {
            Some(p) => {
                let k: usize = place_of(&catalog.packages[p].versions, ver);
                proof {
                    before.slot_of(p as int);
                    assert(before.ids()[p as int] == id@);
                }
                if k < catalog.packages[p].versions.len() && catalog.packages[p].versions[k]
                    == *ver {
                    return false;
                }
                let mut package: Package = catalog.packages.remove(p);
                let ghost held = package.versions@;
                package.versions.insert(k, *ver);
                proof {
                    let now = package.versions@;
                    assert forall|i: int, j: int| 0 <= i < j < now.len() implies (
                    #[trigger] now[i]).newer_than(#[trigger] now[j]) by {
                        if j < k {
                            assert(held[i].newer_than(held[j]));
                        } else if j == k {
                            assert(now[i] == held[i]);
                        } else if i == k {
                            assert(now[j] == held[j - 1]);
                            assert(!held[j - 1].newer_than(*ver));
                        } else if i < k {
                            assert(held[i].newer_than(held[j - 1]));
                        } else {
                            assert(held[i - 1].newer_than(held[j - 1]));
                        }
                    }
                    assert forall|v: Version| now.contains(v) <==> (held.contains(v) || v
                        == *ver) by {
                        if now.contains(v) {
                            let i = choose|i: int| 0 <= i < now.len() && now[i] == v;
                            if i < k {
                                assert(held[i] == v);
                            } else if i > k {
                                assert(held[i - 1] == v);
                            }
                        }
                        if held.contains(v) {
                            let i = choose|i: int| 0 <= i < held.len() && held[i] == v;
                            if i < k {
                                assert(now[i] == v);
                            } else {
                                assert(now[i + 1] == v);
                            }
                        }
                        if v == *ver {
                            assert(now[k as int] == v);
                        }
                    }
                }
                catalog.packages.insert(p, package);
                proof {
                    assert(catalog.packages@.len() == before.packages@.len());
                    assert forall|i: int| 0 <= i < catalog.packages.len() implies (
                    #[trigger] catalog.packages[i]).id@ == before.packages[i].id@ by {}
                    assert forall|i: int| 0 <= i < catalog.packages.len() && i != p implies (
                    #[trigger] catalog.packages[i]) == before.packages[i] by {}
                    assert(catalog.wf());
                    catalog.slot_of(p as int);
                    assert(catalog.ids() =~= before.ids());
                    before.others_stay(*catalog, id@);
                }
                true
            },
            None => {
                let mut versions: Vec<Version> = Vec::new();
                versions.push(*ver);
                catalog.packages.push(Package { id: id.to_owned(), versions });
                proof {
                    let n = before.packages.len() as int;
                    assert forall|i: int| 0 <= i < n implies (#[trigger] catalog.packages[i])
                        == before.packages[i] by {}
                    assert(catalog.wf());
                    catalog.slot_of(n);
                    assert(catalog.ids() =~= before.ids().push(id@));
                    assert(!before.ids().contains(id@));
                    assert(catalog.versions_of(id@) =~= seq![*ver]);
                    assert(seq![*ver][0] == *ver);
                    before.others_stay(*catalog, id@);
                }
                true
            },
        }
    }
    /// Withdraws `(id, ver)`. Says whether it was there.
    pub fn delete(id: &str, ver: &Version, catalog: &mut Catalog) -> (deleted: bool)
        requires
            old(catalog).wf(),
        ensures
            final(catalog).wf(),
            deleted == old(catalog).contains(id@, *ver),
            deleted ==> old(catalog).without(id@, *ver, *final(catalog)),
            !deleted ==> *final(catalog) == *old(catalog),
    {
        let ghost before = *catalog;
        proof {
            before.invariant_holds();
            before.pairs_are_unique(id@);
        }
        match catalog.find(id) {
            Some(p) => {
                let k: usize = place_of(&catalog.packages[p].versions, ver);
                proof {
                    before.slot_of(p as int);
                }
                if k >= catalog.packages[p].versions.len() || catalog.packages[p].versions[k]
                    != *ver {
                    assert(before.versions_of(id@) != seq![*ver]) by {
                        assert(seq![*ver][0] == *ver);
                    }
                    return false;
                }
                let mut package: Package = catalog.packages.remove(p);
                let ghost held = package.versions@;
                package.versions.remove(k);
                let ghost now = package.versions@;
                proof {
                    assert forall|i: int, j: int| 0 <= i < j < now.len() implies (
                    #[trigger] now[i]).newer_than(#[trigger] now[j]) by {
                        let a = if i < k { i } else { i + 1 };
                        let b = if j < k { j } else { j + 1 };
                        assert(held[a].newer_than(held[b]));
                    }
                    assert forall|v: Version| now.contains(v) <==> (held.contains(v) && v
                        != *ver) by {
                        if now.contains(v) {
                            let i = choose|i: int| 0 <= i < now.len() && now[i] == v;
                            let a = if i < k { i } else { i + 1 };
                            assert(held[a] == v);
                            assert(a != k);
                        }
                        if held.contains(v) && v != *ver {
                            let i = choose|i: int| 0 <= i < held.len() && held[i] == v;
                            if i < k {
                                assert(now[i] == v);
                            } else {
                                assert(now[i - 1] == v);
                            }
                        }
                    }
                }
                if package.versions.len() == 0 {
                    proof {
                        assert(held =~= seq![*ver]);
                        assert forall|i: int| 0 <= i < catalog.packages.len() implies (
                        #[trigger] catalog.packages[i]) == before.packages[if i < p {
                            i
                        } else {
                            i + 1
                        }] by {}
                        assert(catalog.wf());
                        assert(catalog.ids() =~= before.ids().remove(p as int));
                        assert(before.ids()[p as int] == id@);
                        assert(!catalog.has(id@)) by {
                            if catalog.has(id@) {
                                let i = catalog.slot(id@);
                                let a = if i < p { i } else { i + 1 };
                                assert(before.packages[a].id@ == id@);
                            }
                        }
                        assert forall|other: Seq<char>| other != id@ implies (
                        #[trigger] catalog.versions_of(other)) == before.versions_of(other) by {
                            if before.has(other) {
                                let a = before.slot(other);
                                before.slot_of(a);
                                let i = if a < p { a } else { a - 1 };
                                catalog.slot_of(i);
                            } else {
                                if catalog.has(other) {
                                    let i = catalog.slot(other);
                                    let a = if i < p { i } else { i + 1 };
                                    assert(before.packages[a].id@ == other);
                                }
                            }
                        }
                    }
                } else {
                    catalog.packages.insert(p, package);
                    proof {
                        assert(held != seq![*ver]) by {
                            assert(seq![*ver].len() == 1);
                        }
                        assert forall|i: int| 0 <= i < catalog.packages.len() implies (
                        #[trigger] catalog.packages[i]).id@ == before.packages[i].id@ by {}
                        assert forall|i: int| 0 <= i < catalog.packages.len() && i
                            != p implies (#[trigger] catalog.packages[i])
                            == before.packages[i] by {}
                        assert(catalog.wf());
                        catalog.slot_of(p as int);
                        assert(catalog.ids() =~= before.ids());
                        before.others_stay(*catalog, id@);
                    }
                }
                true
            },
            None => {
                assert(before.versions_of(id@) != seq![*ver]) by {
                    assert(seq![*ver].len() == 1);
                }
                false
            },
        }
    }

    /// The newest version of `id` that satisfies `req`, if there is one.
    pub fn resolve_one(id: &str, req: &Requirement, catalog: &Catalog) -> (found: Option<Mod>)
        requires
            catalog.wf(),
        ensures
            found is Some == (matching(catalog.versions_of(id@), *req).len() > 0),
            found matches Some(m) ==> m.id@ == id@ && m.version == matching(
                catalog.versions_of(id@),
                *req,
            )[0],
    {
        let versions: Vec<Version> = catalog.versions_descending(id);
        let first: Vec<Version> = resolve(&versions, req, 1);
        if first.len() > 0 {
            Some(Mod { id: id.to_owned(), version: first[0] })
        } else {
            None
        }
    }

    /// Every version of `id` that satisfies `req`, newest first.
    pub fn resolve_all(id: &str, req: &Requirement, catalog: &Catalog) -> (found: Vec<Mod>)
        requires
            catalog.wf(),
        ensures
            all_of_package(found@, id@),
            versions_in(found@) == matching(catalog.versions_of(id@), *req),
    {
        let versions: Vec<Version> = catalog.versions_descending(id);
        let chosen: Vec<Version> = resolve(&versions, req, 0);
        records(id, &chosen)
    }

    /// The `n` newest versions of `id` that satisfy `req`, newest first;
    /// all of them where there are fewer.
    pub fn resolve_n(id: &str, req: &Requirement, catalog: &Catalog, n: usize) -> (found: Vec<Mod>)
        requires
            catalog.wf(),
        ensures
            all_of_package(found@, id@),
            versions_in(found@) == first_n(matching(catalog.versions_of(id@), *req), n as nat),
    {
        if n == 0 {
            let none: Vec<Mod> = Vec::new();
            assert(versions_in(none@) =~= first_n(
                matching(catalog.versions_of(id@), *req),
                n as nat,
            ));
            return none;
        }
        let versions: Vec<Version> = catalog.versions_descending(id);
        let chosen: Vec<Version> = resolve(&versions, req, n);
        proof {
            let all = matching(catalog.versions_of(id@), *req);
            assert(chosen@ =~= first_n(all, n as nat));
        }
        records(id, &chosen)
    }
}

/// One record of package `id` for each version.
fn records(id: &str, versions: &Vec<Version>) -> (mods: Vec<Mod>)
    ensures
        all_of_package(mods@, id@),
        versions_in(mods@) == versions@,
{
    let mut mods: Vec<Mod> = Vec::new();
    let mut i: usize = 0;
    while i < versions.len()
        invariant
            0 <= i <= versions.len(),
            mods.len() == i,
            forall|k: int| 0 <= k < i ==> (#[trigger] mods[k]).id@ == id@,
            forall|k: int| 0 <= k < i ==> (#[trigger] mods[k]).version == versions[k],
        decreases versions.len() - i,
    {
        mods.push(Mod { id: id.to_owned(), version: versions[i] });
        i += 1;
    }
    assert(versions_in(mods@) =~= versions@);
    mods
}

} // verus!
