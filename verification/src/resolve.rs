//! The resolution engine: which of a package's versions answer a query.

use crate::requirement::Requirement;
use crate::version::{strictly_descending, Version};
use vstd::prelude::*;

verus! {

/// The result-count policy used when a query names none: the first match.
pub fn one() -> (limit: usize)
    ensures
        limit == 1,
{
    1
}

/// The requirement used when a query names none: it matches everything.
pub fn any_version() -> (req: Requirement)
    ensures
        req.range() is None,
{
    Requirement::any()
}

/// The versions whose flag is set, in the order given. A version
/// without a flag counts as not set.
pub open spec fn kept(versions: Seq<Version>, flags: Seq<bool>) -> Seq<Version>
    decreases versions.len(),
{
    if versions.len() == 0 {
        Seq::empty()
    } else {
        let before = kept(versions.drop_last(), flags);
        if versions.len() - 1 < flags.len() && flags[versions.len() - 1] {
            before.push(versions.last())
        } else {
            before
        }
    }
}

/// The first `n` of `matches`, or all of them where there are fewer.
pub open spec fn first_n(matches: Seq<Version>, n: nat) -> Seq<Version> {
    if n >= matches.len() {
        matches
    } else {
        matches.take(n as int)
    }
}

/// The result-count policy: `0` keeps everything, `n > 0` keeps the first
/// `n`.
pub open spec fn capped(matches: Seq<Version>, limit: nat) -> Seq<Version> {
    if limit == 0 {
        matches
    } else {
        first_n(matches, limit)
    }
}

/// One flag per version: whether the requirement accepts it.
pub open spec fn verdicts(versions: Seq<Version>, req: Requirement) -> Seq<bool> {
    Seq::new(versions.len(), |i: int| req.accepts(versions[i]))
}

/// The versions that the requirement accepts, in the order given.
pub open spec fn matching(versions: Seq<Version>, req: Requirement) -> Seq<Version> {
    kept(versions, verdicts(versions, req))
}

/// What has been kept of a prefix is a prefix of what is kept of the whole.
pub proof fn kept_of_prefix(versions: Seq<Version>, flags: Seq<bool>, n: int)
    requires
        0 <= n <= versions.len(),
    ensures
        kept(versions.take(n), flags).len() <= kept(versions, flags).len(),
        kept(versions.take(n), flags) == kept(versions, flags).take(
            kept(versions.take(n), flags).len() as int,
        ),
    decreases versions.len() - n,
{
    if n == versions.len() {
        assert(versions.take(n) =~= versions);
        assert(kept(versions, flags).take(kept(versions, flags).len() as int) =~= kept(
            versions,
            flags,
        ));
    } else {
        kept_of_prefix(versions, flags, n + 1);
        let longer = versions.take(n + 1);
        assert(longer.drop_last() =~= versions.take(n));
        let short = kept(versions.take(n), flags);
        assert(kept(longer, flags).take(short.len() as int) =~= short);
        assert(kept(versions, flags).take(short.len() as int) =~= short);
    }
}

/// A version is kept exactly when it stands at a flagged position.
pub proof fn kept_holds_the_flagged(versions: Seq<Version>, flags: Seq<bool>)
    ensures
        forall|v: Version| #[trigger]
            kept(versions, flags).contains(v) <==> exists|i: int|
                0 <= i < versions.len() && i < flags.len() && flags[i] && versions[i] == v,
    decreases versions.len(),
{
    if versions.len() == 0 {
    } else {
        let front = versions.drop_last();
        let last = versions.len() - 1;
        kept_holds_the_flagged(front, flags);
        assert forall|v: Version| #[trigger]
            kept(versions, flags).contains(v) <==> exists|i: int|
                0 <= i < versions.len() && i < flags.len() && flags[i] && versions[i] == v by {
            let before = kept(front, flags);
            if kept(versions, flags).contains(v) {
                let k = choose|k: int|
                    0 <= k < kept(versions, flags).len() && kept(versions, flags)[k] == v;
                if k < before.len() {
                    assert(before[k] == v);
                    assert(before.contains(v));
                    let i = choose|i: int|
                        0 <= i < front.len() && i < flags.len() && flags[i] && front[i] == v;
                    assert(versions[i] == v);
                } else {
                    assert(versions[last] == v);
                }
            }
            if exists|i: int|
                0 <= i < versions.len() && i < flags.len() && flags[i] && versions[i] == v {
                let i = choose|i: int|
                    0 <= i < versions.len() && i < flags.len() && flags[i] && versions[i] == v;
                if i < last {
                    assert(front[i] == v);
                    assert(before.contains(v));
                    let k = choose|k: int| 0 <= k < before.len() && before[k] == v;
                    assert(kept(versions, flags)[k] == v);
                } else {
                    assert(kept(versions, flags) == before.push(versions.last()));
                    assert(kept(versions, flags)[before.len() as int] == v);
                }
            }
        }
    }
}

/// Keeping some of a strictly descending run leaves a strictly descending
/// run.
pub proof fn kept_stays_descending(versions: Seq<Version>, flags: Seq<bool>)
    requires
        strictly_descending(versions),
    ensures
        strictly_descending(kept(versions, flags)),
    decreases versions.len(),
{
    if versions.len() > 0 {
        let front = versions.drop_last();
        let before = kept(front, flags);
        kept_stays_descending(front, flags);
        kept_holds_the_flagged(front, flags);
        assert forall|i: int, j: int| 0 <= i < j < kept(versions, flags).len() implies (
        #[trigger] kept(versions, flags)[i]).newer_than(#[trigger] kept(versions, flags)[j]) by {
            if j < before.len() {
                assert(before[i].newer_than(before[j]));
            } else {
                assert(before.contains(before[i]));
                let k = choose|k: int| 0 <= k < front.len() && front[k] == before[i];
                assert(versions[k].newer_than(versions[versions.len() - 1]));
            }
        }
    }
}

/// Picks the flagged versions in order, up to the limit (`0`: no limit).
///
/// This is the engine's second half: it takes the verdicts as given.
pub fn select(versions: &Vec<Version>, flags: &Vec<bool>, limit: usize) -> (out: Vec<Version>)
    ensures
        out@ == capped(kept(versions@, flags@), limit as nat),
{
    let mut out: Vec<Version> = Vec::new();
    let mut i: usize = 0;
    while i < versions.len() && (limit == 0 || out.len() < limit)
        invariant
            0 <= i <= versions.len(),
            out@ == kept(versions@.take(i as int), flags@),
            limit == 0 || out.len() <= limit,
        decreases versions.len() - i,
    {
        proof {
            assert(versions@.take(i + 1).drop_last() =~= versions@.take(i as int));
        }
        if i < flags.len() && flags[i] {
            out.push(versions[i]);
        }
        i += 1;
    }
    proof {
        kept_of_prefix(versions@, flags@, i as int);
        let all = kept(versions@, flags@);
        if i == versions.len() {
            assert(versions@.take(i as int) =~= versions@);
            if limit != 0 && limit < all.len() {
                assert(out@ =~= all.take(limit as int));
            }
        } else {
            assert(out@ =~= all.take(limit as int));
        }
    }
    out
}

/// Asks the requirement about each version in turn.
pub fn judge(versions: &Vec<Version>, req: &Requirement) -> (flags: Vec<bool>)
    ensures
        flags@ == verdicts(versions@, *req),
{
    let mut flags: Vec<bool> = Vec::new();
    let mut i: usize = 0;
    while i < versions.len()
        invariant
            0 <= i <= versions.len(),
            flags.len() == i,
            forall|k: int| 0 <= k < i ==> flags[k] == req.accepts(versions[k]),
        decreases versions.len() - i,
    {
        let b: bool = req.matches(&versions[i]);
        flags.push(b);
        i += 1;
    }
    assert(flags@ =~= verdicts(versions@, *req));
    flags
}

/// The versions that satisfy `req`, in the order given, up to the limit
/// (`0`: all of them).
pub fn resolve(versions: &Vec<Version>, req: &Requirement, limit: usize) -> (out: Vec<Version>)
    ensures
        out@ == capped(matching(versions@, *req), limit as nat),
{
    let flags: Vec<bool> = judge(versions, req);
    select(versions, &flags, limit)
}

} // verus!
