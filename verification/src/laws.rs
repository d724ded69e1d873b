//! What holds of the registry as a whole, proved from the contracts of its
//! parts.

use crate::catalog::versions_in;
use crate::coordinator::{
    delete_status, publish_status, Answer, Publish, Resolution, Status,
};
use crate::registry::Registry;
use crate::requirement::Requirement;
use crate::resolve::{capped, kept_holds_the_flagged, kept_stays_descending, matching, verdicts};
use crate::version::{strictly_descending, Version};
use vstd::prelude::*;

verus! {

/// Resolution over a package's versions, newest first: the matches are
/// exactly the versions that satisfy the requirement, in strictly descending
/// order, so the first of them is the newest that satisfies it; and any limit
/// keeps a prefix of them, of at most that length unless the limit is zero.
pub proof fn resolution_is_newest_first(versions: Seq<Version>, req: Requirement, limit: nat)
    requires
        strictly_descending(versions),
    ensures
        forall|v: Version| #[trigger]
            matching(versions, req).contains(v) <==> versions.contains(v) && req.accepts(v),
        strictly_descending(matching(versions, req)),
        forall|v: Version|
            #![trigger versions.contains(v)]
            versions.contains(v) && req.accepts(v) ==> v == matching(versions, req)[0] || matching(
                versions,
                req,
            )[0].newer_than(v),
        limit == 0 ==> capped(matching(versions, req), limit) == matching(versions, req),
        limit > 0 ==> capped(matching(versions, req), limit).len() <= limit,
        capped(matching(versions, req), limit) == matching(versions, req).take(
            capped(matching(versions, req), limit).len() as int,
        ),
{
    let all = matching(versions, req);
    let flags = verdicts(versions, req);
    kept_holds_the_flagged(versions, flags);
    kept_stays_descending(versions, flags);
    assert forall|v: Version| #[trigger]
        all.contains(v) <==> versions.contains(v) && req.accepts(v) by {
        if all.contains(v) {
            let i = choose|i: int|
                0 <= i < versions.len() && i < flags.len() && flags[i] && versions[i] == v;
            assert(versions.contains(v));
        }
        if versions.contains(v) && req.accepts(v) {
            let i = choose|i: int| 0 <= i < versions.len() && versions[i] == v;
            assert(flags[i]);
        }
    }
    assert forall|v: Version|
        #![trigger versions.contains(v)]
        versions.contains(v) && req.accepts(v) implies v == all[0] || all[0].newer_than(v) by {
        assert(all.contains(v));
        let k = choose|k: int| 0 <= k < all.len() && all[k] == v;
        if k > 0 {
            assert(all[0].newer_than(all[k]));
        }
    }
    assert(capped(all, limit) =~= all.take(capped(all, limit).len() as int));
}

/// What the registry answers to a resolve query. With limit one: the newest
/// published version of the package that satisfies the requirement, or "not
/// found" where none does. With another limit: published versions that
/// satisfy it, newest first; with limit zero all of them.
pub proof fn resolve_answers_newest_first(
    registry: Registry,
    id: Seq<char>,
    req: Requirement,
    limit: nat,
    found: Resolution,
)
    requires
        registry.wf(),
        found.answers(id, registry.catalog.versions_of(id), req, limit),
    ensures
        found matches Resolution::One(m) ==> {
            &&& registry.catalog.contains(id, m.version)
            &&& req.accepts(m.version)
            &&& forall|v: Version|
                #![trigger registry.catalog.contains(id, v)]
                registry.catalog.contains(id, v) && req.accepts(v) ==> v == m.version
                    || m.version.newer_than(v)
        },
        found is NotFound ==> forall|v: Version|
            #![trigger registry.catalog.contains(id, v)]
            registry.catalog.contains(id, v) ==> !req.accepts(v),
        found matches Resolution::Many(mods) ==> {
            &&& strictly_descending(versions_in(mods@))
            &&& forall|k: int|
                0 <= k < mods.len() ==> registry.catalog.contains(
                    id,
                    #[trigger] versions_in(mods@)[k],
                ) && req.accepts(versions_in(mods@)[k])
            &&& limit == 0 ==> forall|v: Version|
                #![trigger registry.catalog.contains(id, v)]
                registry.catalog.contains(id, v) && req.accepts(v) ==> versions_in(mods@).contains(
                    v,
                )
            &&& limit > 0 ==> mods.len() <= limit
        },
{
    let versions = registry.catalog.versions_of(id);
    let all = matching(versions, req);
    registry.catalog.invariant_holds();
    resolution_is_newest_first(versions, req, limit);
    match found {
        Resolution::One(m) => {
            assert(all.contains(all[0]));
        },
        Resolution::NotFound => {
            assert forall|v: Version|
                #![trigger registry.catalog.contains(id, v)]
                registry.catalog.contains(id, v) implies !req.accepts(v) by {
                if req.accepts(v) {
                    assert(all.contains(v));
                }
            }
        },
        Resolution::Many(mods) => {
            let out = versions_in(mods@);
            assert(out == all.take(out.len() as int));
            assert forall|k: int| 0 <= k < mods.len() implies registry.catalog.contains(
                id,
                #[trigger] out[k],
            ) && req.accepts(out[k]) by {
                assert(all[k] == out[k]);
                assert(all.contains(all[k]));
            }
            assert forall|i: int, j: int| 0 <= i < j < out.len() implies (#[trigger] out[i]).newer_than(
                #[trigger] out[j],
            ) by {
                assert(all[i].newer_than(all[j]));
            }
        },
    }
}

/// A publish without a known token is refused and leaves the registry, and
/// so the catalog, as it was.
pub proof fn publish_needs_a_known_token(
    before: Registry,
    id: Seq<char>,
    v: Version,
    contents: Seq<u8>,
    token: Option<Seq<char>>,
    after: Registry,
    status: Status,
)
    requires
        before.uploaded(id, v, contents, token, after, status),
        !before.may_publish(token),
    ensures
        status == Status::Unauthorized,
        after == before,
{
}

/// Publishing the same key twice: the first is created, the second reports
/// a conflict and changes nothing, so the bytes of the first stay.
pub proof fn second_publish_conflicts(
    before: Registry,
    id: Seq<char>,
    v: Version,
    first: Seq<u8>,
    second: Seq<u8>,
    token: Option<Seq<char>>,
    between: Registry,
    after: Registry,
    status: Status,
)
    requires
        before.uploaded(id, v, first, token, between, Status::Created),
        between.uploaded(id, v, second, token, after, status),
    ensures
        status == Status::Conflict,
        after == between,
        after.files.visible((id, v)) == Some(first),
{
    assert(between.catalog.contains(id, v));
}

/// A download after a publish returns the bytes that were published.
pub proof fn download_returns_what_was_published(
    before: Registry,
    id: Seq<char>,
    v: Version,
    contents: Seq<u8>,
    token: Option<Seq<char>>,
    between: Registry,
    after: Registry,
    found: Option<Seq<u8>>,
)
    requires
        before.uploaded(id, v, contents, token, between, Status::Created),
        between.downloaded(id, v, after, found),
    ensures
        found == Some(contents),
{
}

/// A delete that succeeds removes the stored artifact and the catalog row,
/// and a publish of the same key by a known token is then created again.
pub proof fn publish_after_delete_succeeds(
    before: Registry,
    id: Seq<char>,
    v: Version,
    admin: Option<Seq<char>>,
    between: Registry,
    contents: Seq<u8>,
    token: Option<Seq<char>>,
    after: Registry,
    status: Status,
)
    requires
        before.deleted(id, v, admin, between, Status::Success),
        between.may_publish(token),
        between.uploaded(id, v, contents, token, after, status),
    ensures
        !between.catalog.contains(id, v),
        !between.files.stored().dom().contains((id, v)),
        status == Status::Created,
        after.catalog.contains(id, v),
        after.files.stored()[(id, v)] == contents,
{
}

/// Once a credential is removed by its token, a publish with that token is
/// refused.
pub proof fn removed_token_cannot_publish(
    before: Registry,
    pw: Seq<char>,
    user: Option<Seq<char>>,
    admin: Option<Seq<char>>,
    between: Registry,
    id: Seq<char>,
    v: Version,
    contents: Seq<u8>,
    after: Registry,
    status: Status,
)
    requires
        before.key_deleted(Some(pw), user, admin, between, Status::Success),
        between.uploaded(id, v, contents, Some(pw), after, status),
    ensures
        status == Status::Unauthorized,
        after == between,
{
}

/// The answer that stands for a store's yes or no.
pub open spec fn answer_of(done: bool) -> Answer {
    if done {
        Answer::Yes
    } else {
        Answer::No
    }
}

/// The registry reports of a publish what the protocol reports when the
/// credential store says whether it knows the token, the catalog whether the
/// row was new, and the artifact store that it wrote the bytes.
pub proof fn publish_reports_as_the_protocol_does(
    before: Registry,
    id: Seq<char>,
    v: Version,
    contents: Seq<u8>,
    token: Option<Seq<char>>,
    after: Registry,
    status: Status,
)
    requires
        before.uploaded(id, v, contents, token, after, status),
    ensures
        status == publish_status(
            token is Some,
            answer_of(before.may_publish(token)),
            answer_of(!before.catalog.contains(id, v)),
            Answer::Yes,
        ),
{
}

/// The registry reports of a delete what the protocol reports when the
/// artifact store says whether the file was there and the catalog whether
/// the row was.
pub proof fn delete_reports_as_the_protocol_does(
    before: Registry,
    id: Seq<char>,
    v: Version,
    token: Option<Seq<char>>,
    after: Registry,
    status: Status,
)
    requires
        before.deleted(id, v, token, after, status),
    ensures
        status == delete_status(
            before.is_admin(token),
            answer_of(before.files.stored().dom().contains((id, v))),
            answer_of(before.catalog.contains(id, v)),
        ),
{
}

/// Two publishes of one key that run at the same time against one catalog.
/// `row` says whether the catalog holds the key; `writes` counts the
/// artifact writes made so far.
pub struct Race {
    pub first: Publish,
    pub second: Publish,
    pub row: bool,
    pub writes: nat,
}

/// What the stores answer to the pending step of one publish, both tokens
/// being known and no store failing: the insert goes in unless the row is
/// there.
pub open spec fn race_answer(run: Publish, row: bool) -> Answer {
    if run == Publish::InsertRow && row {
        Answer::No
    } else {
        Answer::Yes
    }
}

/// One of the two publishes takes its pending step, as one undivided action
/// on the stores.
pub open spec fn race_step(r: Race, first_moves: bool) -> Race {
    let run = if first_moves {
        r.first
    } else {
        r.second
    };
    let next = run.after(race_answer(run, r.row));
    Race {
        first: if first_moves {
            next
        } else {
            r.first
        },
        second: if first_moves {
            r.second
        } else {
            next
        },
        row: r.row || run == Publish::InsertRow,
        writes: if run == Publish::WriteArtifact {
            r.writes + 1
        } else {
            r.writes
        },
    }
}

/// The race after the steps of `schedule`, which names the publish that
/// moves at each turn.
pub open spec fn race_run(r: Race, schedule: Seq<bool>) -> Race
    decreases schedule.len(),
{
    if schedule.len() == 0 {
        r
    } else {
        race_run(race_step(r, schedule[0]), schedule.drop_first())
    }
}

/// Both publishes carry a token, the key is not yet published.
pub open spec fn race_start() -> Race {
    Race { first: Publish::begin(true), second: Publish::begin(true), row: false, writes: 0 }
}

spec fn waiting(run: Publish) -> bool {
    run == Publish::ResolveToken || run == Publish::InsertRow
}

spec fn winning(run: Publish, writes: nat) -> bool {
    (run == Publish::WriteArtifact && writes == 0) || (run == Publish::Done(Status::Created)
        && writes == 1)
}

spec fn losing(run: Publish) -> bool {
    waiting(run) || run == Publish::Done(Status::Conflict)
}

spec fn race_holds(r: Race) -> bool {
    if r.row {
        (winning(r.first, r.writes) && losing(r.second)) || (winning(r.second, r.writes) && losing(
            r.first,
        ))
    } else {
        waiting(r.first) && waiting(r.second) && r.writes == 0
    }
}

proof fn race_run_holds(r: Race, schedule: Seq<bool>)
    requires
        race_holds(r),
    ensures
        race_holds(race_run(r, schedule)),
    decreases schedule.len(),
{
    if schedule.len() > 0 {
        race_run_holds(race_step(r, schedule[0]), schedule.drop_first());
    }
}

/// Of two publishes of one key that run at the same time, in whatever order
/// their steps fall, exactly one is created and the other reports a
/// conflict, and the artifact is written exactly once.
pub proof fn one_of_two_publishes_wins(schedule: Seq<bool>)
    ensures
        ({
            let end = race_run(race_start(), schedule);
            end.first is Done && end.second is Done ==> {
                &&& end.writes == 1
                &&& (end.first == Publish::Done(Status::Created) && end.second == Publish::Done(
                    Status::Conflict,
                )) || (end.first == Publish::Done(Status::Conflict) && end.second == Publish::Done(
                    Status::Created,
                ))
            }
        }),
{
    race_run_holds(race_start(), schedule);
}

} // verus!
