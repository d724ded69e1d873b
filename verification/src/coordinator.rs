//! The coordinator's decisions: what each operation does next, given what
//! the stores answered, and what it reports in the end.
//!
//! Publish and delete are protocols of several steps against stores that may
//! fail. Each is a small state machine here: a state names the step to take
//! next, and `step` takes the store's answer to the following state. Whoever
//! owns the stores runs the steps.

use crate::catalog::{all_of_package, versions_in, Mod};
use crate::file_repo::DIRECTORY_DEPTH;
use crate::requirement::Requirement;
use crate::resolve::{capped, matching, resolve};
use crate::version::Version;
use vstd::prelude::*;

verus! {

/// What an operation reports to its caller.
#[derive(Clone, Copy, Debug, PartialEq, Eq, Structural)]
pub enum Status {
    Success,
    Created,
    BadRequest,
    Unauthorized,
    NotFound,
    Conflict,
    InternalError,
}

impl Status {
    /// The HTTP status code that stands for this report.
    pub open spec fn code_of(self) -> u16 {
        match self {
            Status::Success => 200,
            Status::Created => 201,
            Status::BadRequest => 400,
            Status::Unauthorized => 401,
            Status::NotFound => 404,
            Status::Conflict => 409,
            Status::InternalError => 500,
        }
    }

    pub fn code(&self) -> (code: u16)
        ensures
            code == self.code_of(),
    {
        match self {
            Status::Success => 200,
            Status::Created => 201,
            Status::BadRequest => 400,
            Status::Unauthorized => 401,
            Status::NotFound => 404,
            Status::Conflict => 409,
            Status::InternalError => 500,
        }
    }

    /// Whether the operation did what was asked.
    pub open spec fn is_success(self) -> bool {
        self == Status::Success || self == Status::Created
    }
}

/// What a store answered to one step: it did it, there was nothing to do it
/// to (or the thing was there already), or the store itself failed.
#[derive(Clone, Copy, Debug, PartialEq, Eq, Structural)]
pub enum Answer {
    Yes,
    No,
    Failed,
}

impl Answer {
    /// The answer of a store that says whether it did something.
    pub fn of(done: bool) -> (answer: Answer)
        ensures
            answer == if done {
                Answer::Yes
            } else {
                Answer::No
            },
    {
        if done {
            Answer::Yes
        } else {
            Answer::No
        }
    }

    /// The answer of a table that says how many rows a statement changed:
    /// it did something exactly when it changed at least one.
    pub fn of_rows(affected: u64) -> (answer: Answer)
        ensures
            answer == if affected == 0 {
                Answer::No
            } else {
                Answer::Yes
            },
    {
        if affected == 0 {
            Answer::No
        } else {
            Answer::Yes
        }
    }
}

/// The next step of a publish.
#[derive(Clone, Copy, Debug, PartialEq, Eq, Structural)]
pub enum Publish {
    /// Look the token up in the credential store.
    ResolveToken,
    /// Insert the catalog row unless it is there.
    InsertRow,
    /// Store the artifact's bytes.
    WriteArtifact,
    /// Report to the caller.
    Done(Status),
}

impl Publish {
    /// The first step: without a token there is nothing to look up.
    pub open spec fn begin(token_given: bool) -> Publish {
        if token_given {
            Publish::ResolveToken
        } else {
            Publish::Done(Status::Unauthorized)
        }
    }

    /// The step that follows once the pending step was answered.
    pub open spec fn after(self, answer: Answer) -> Publish {
        match self {
            Publish::ResolveToken => match answer {
                Answer::Yes => Publish::InsertRow,
                Answer::No => Publish::Done(Status::Unauthorized),
                Answer::Failed => Publish::Done(Status::InternalError),
            },
            Publish::InsertRow => match answer {
                Answer::Yes => Publish::WriteArtifact,
                Answer::No => Publish::Done(Status::Conflict),
                Answer::Failed => Publish::Done(Status::InternalError),
            },
            Publish::WriteArtifact => match answer {
                Answer::Yes => Publish::Done(Status::Created),
                _ => Publish::Done(Status::InternalError),
            },
            Publish::Done(status) => Publish::Done(status),
        }
    }

    pub fn start(token_given: bool) -> (first: Publish)
        ensures
            first == Publish::begin(token_given),
    {
        if token_given {
            Publish::ResolveToken
        } else {
            Publish::Done(Status::Unauthorized)
        }
    }

    pub fn step(self, answer: Answer) -> (next: Publish)
        ensures
            next == self.after(answer),
    {
        match self {
            Publish::ResolveToken => match answer {
                Answer::Yes => Publish::InsertRow,
                Answer::No => Publish::Done(Status::Unauthorized),
                Answer::Failed => Publish::Done(Status::InternalError),
            },
            Publish::InsertRow => match answer {
                Answer::Yes => Publish::WriteArtifact,
                Answer::No => Publish::Done(Status::Conflict),
                Answer::Failed => Publish::Done(Status::InternalError),
            },
            Publish::WriteArtifact => match answer {
                Answer::Yes => Publish::Done(Status::Created),
                _ => Publish::Done(Status::InternalError),
            },
            Publish::Done(status) => Publish::Done(status),
        }
    }
}

/// What a publish reports, given whether a token came with it and what the
/// credential store, the catalog and the artifact store answer in turn.
pub open spec fn publish_status(
    token_given: bool,
    known: Answer,
    inserted: Answer,
    written: Answer,
) -> Status {
    if !token_given || known == Answer::No {
        Status::Unauthorized
    } else if known == Answer::Failed {
        Status::InternalError
    } else if inserted == Answer::No {
        Status::Conflict
    } else if inserted == Answer::Failed {
        Status::InternalError
    } else if written == Answer::Yes {
        Status::Created
    } else {
        Status::InternalError
    }
}

/// A publish is over after three answers at most, with the report that
/// `publish_status` names. It asks the catalog only once the token is known,
/// and the artifact store only once the row went in.
pub proof fn publish_runs_to_its_status(
    token_given: bool,
    known: Answer,
    inserted: Answer,
    written: Answer,
)
    ensures
        Publish::begin(token_given).after(known).after(inserted).after(written) == Publish::Done(
            publish_status(token_given, known, inserted, written),
        ),
        Publish::begin(token_given).after(known) == Publish::InsertRow <==> (token_given && known
            == Answer::Yes),
        Publish::begin(token_given).after(known).after(inserted) == Publish::WriteArtifact <==> (
        token_given && known == Answer::Yes && inserted == Answer::Yes),
{
}

/// The next step of a delete.
#[derive(Clone, Copy, Debug, PartialEq, Eq, Structural)]
pub enum Delete {
    /// Remove the artifact's file.
    RemoveFile,
    /// Remove the directory this many steps above the file, if it is empty.
    RemoveDirectory(usize),
    /// Delete the catalog row.
    DeleteRow,
    /// Report to the caller.
    Done(Status),
}

impl Delete {
    /// The first step: only an admin may delete.
    pub open spec fn begin(is_admin: bool) -> Delete {
        if is_admin {
            Delete::RemoveFile
        } else {
            Delete::Done(Status::Unauthorized)
        }
    }

    /// The step that follows once the pending step was answered. The walk up
    /// the directories ends at the first one that stays, and never goes
    /// above those made for the key.
    pub open spec fn after(self, answer: Answer) -> Delete {
        match self {
            Delete::RemoveFile => match answer {
                Answer::Yes => Delete::RemoveDirectory(0),
                Answer::No => Delete::Done(Status::NotFound),
                Answer::Failed => Delete::Done(Status::InternalError),
            },
            Delete::RemoveDirectory(level) => if answer == Answer::Yes && level + 1
                < DIRECTORY_DEPTH {
                Delete::RemoveDirectory((level + 1) as usize)
            } else {
                Delete::DeleteRow
            },
            Delete::DeleteRow => match answer {
                Answer::Yes => Delete::Done(Status::Success),
                Answer::No => Delete::Done(Status::NotFound),
                Answer::Failed => Delete::Done(Status::InternalError),
            },
            Delete::Done(status) => Delete::Done(status),
        }
    }

    pub fn start(is_admin: bool) -> (first: Delete)
        ensures
            first == Delete::begin(is_admin),
    {
        if is_admin {
            Delete::RemoveFile
        } else {
            Delete::Done(Status::Unauthorized)
        }
    }

    pub fn step(self, answer: Answer) -> (next: Delete)
        ensures
            next == self.after(answer),
    {
        match self {
            Delete::RemoveFile => match answer {
                Answer::Yes => Delete::RemoveDirectory(0),
                Answer::No => Delete::Done(Status::NotFound),
                Answer::Failed => Delete::Done(Status::InternalError),
            },
            Delete::RemoveDirectory(level) => {
                let goes_on: bool = match answer {
                    Answer::Yes => level < DIRECTORY_DEPTH - 1,
                    _ => false,
                };
                if goes_on {
                    Delete::RemoveDirectory(level + 1)
                } else {
                    Delete::DeleteRow
                }
            },
            Delete::DeleteRow => match answer {
                Answer::Yes => Delete::Done(Status::Success),
                Answer::No => Delete::Done(Status::NotFound),
                Answer::Failed => Delete::Done(Status::InternalError),
            },
            Delete::Done(status) => Delete::Done(status),
        }
    }

    /// The state after the directory removals answered in `answers`, as far
    /// as the walk asks for them.
    pub open spec fn after_all(self, answers: Seq<Answer>) -> Delete
        decreases answers.len(),
    {
        if answers.len() == 0 {
            self
        } else if self is RemoveDirectory {
            self.after(answers[0]).after_all(answers.drop_first())
        } else {
            self
        }
    }
}

/// What a delete reports, given whether an admin asked and what the removal
/// of the file and of the catalog row answer.
pub open spec fn delete_status(is_admin: bool, removed: Answer, row: Answer) -> Status {
    if !is_admin {
        Status::Unauthorized
    } else if removed == Answer::No {
        Status::NotFound
    } else if removed == Answer::Failed {
        Status::InternalError
    } else if row == Answer::Yes {
        Status::Success
    } else if row == Answer::No {
        Status::NotFound
    } else {
        Status::InternalError
    }
}

/// However the directory removals go, the walk asks for no more than one per
/// level and then turns to the catalog.
pub proof fn cleanup_ends_at_the_catalog(run: Delete, answers: Seq<Answer>)
    requires
        run == Delete::DeleteRow || (run matches Delete::RemoveDirectory(level) && level
            < DIRECTORY_DEPTH && answers.len() >= DIRECTORY_DEPTH - level),
    ensures
        run.after_all(answers) == Delete::DeleteRow,
    decreases answers.len(),
{
    if run is RemoveDirectory {
        cleanup_ends_at_the_catalog(run.after(answers[0]), answers.drop_first());
    }
}

/// A delete reports what `delete_status` names, whatever the directory
/// removals answered. The catalog row is only touched once the file is gone.
pub proof fn delete_runs_to_its_status(
    is_admin: bool,
    removed: Answer,
    dirs: Seq<Answer>,
    row: Answer,
)
    requires
        dirs.len() >= DIRECTORY_DEPTH,
    ensures
        Delete::begin(is_admin).after(removed).after_all(dirs).after(row) == Delete::Done(
            delete_status(is_admin, removed, row),
        ),
        Delete::begin(is_admin).after(removed).after_all(dirs) == Delete::DeleteRow <==> (is_admin
            && removed == Answer::Yes),
{
    let run = Delete::begin(is_admin).after(removed);
    if is_admin && removed == Answer::Yes {
        cleanup_ends_at_the_catalog(run, dirs);
    } else {
        assert(run is Done);
        assert(run.after_all(dirs) == run);
    }
}

/// What adding a credential reports, given what the store answered.
pub fn add_key_status(inserted: Answer) -> (status: Status)
    ensures
        status == match inserted {
            Answer::Yes => Status::Created,
            Answer::No => Status::Conflict,
            Answer::Failed => Status::InternalError,
        },
{
    match inserted {
        Answer::Yes => Status::Created,
        Answer::No => Status::Conflict,
        Answer::Failed => Status::InternalError,
    }
}

/// What removing credentials reports, given what the store answered.
pub fn delete_key_status(deleted: Answer) -> (status: Status)
    ensures
        status == match deleted {
            Answer::Yes => Status::Success,
            Answer::No => Status::NotFound,
            Answer::Failed => Status::InternalError,
        },
{
    match deleted {
        Answer::Yes => Status::Success,
        Answer::No => Status::NotFound,
        Answer::Failed => Status::InternalError,
    }
}

/// Which credentials a removal request names.
#[derive(Clone, Copy, Debug, PartialEq, Eq, Structural)]
pub enum KeyTarget {
    /// The one token given.
    Token,
    /// Every token of the user given.
    User,
    /// The request names neither.
    Neither,
}

/// A removal request is read by its token where it has one, else by its
/// user.
pub fn key_target(has_pw: bool, has_user: bool) -> (target: KeyTarget)
    ensures
        target == if has_pw {
            KeyTarget::Token
        } else if has_user {
            KeyTarget::User
        } else {
            KeyTarget::Neither
        },
{
    if has_pw {
        KeyTarget::Token
    } else if has_user {
        KeyTarget::User
    } else {
        KeyTarget::Neither
    }
}

/// The answer to a resolve query.
#[derive(Debug, PartialEq, Eq)]
pub enum Resolution {
    /// The newest match: the answer where the limit is one.
    One(Mod),
    /// The matches in descending order: the answer for every other limit.
    Many(Vec<Mod>),
    /// The limit is one and nothing matches.
    NotFound,
}

impl Resolution {
    /// Whether this is the answer to a query for package `id` with
    /// requirement `req` and the given limit, where `versions` are the
    /// package's versions.
    pub open spec fn answers(
        self,
        id: Seq<char>,
        versions: Seq<Version>,
        req: Requirement,
        limit: nat,
    ) -> bool {
        let all = matching(versions, req);
        match self {
            Resolution::One(m) => limit == 1 && all.len() > 0 && m.id@ == id && m.version == all[0],
            Resolution::Many(mods) => limit != 1 && all_of_package(mods@, id) && versions_in(mods@)
                == capped(all, limit),
            Resolution::NotFound => limit == 1 && all.len() == 0,
        }
    }

    pub open spec fn status_of(self) -> Status {
        match self {
            Resolution::NotFound => Status::NotFound,
            _ => Status::Success,
        }
    }

    pub fn status(&self) -> (status: Status)
        ensures
            status == self.status_of(),
    {
        match self {
            Resolution::NotFound => Status::NotFound,
            _ => Status::Success,
        }
    }
}

/// Answers a resolve query from the versions of package `id`: with limit one
/// the first match or "not found", with limit zero every match, with another
/// limit that many matches at most, always in the order given.
pub fn answer(id: &str, versions: &Vec<Version>, req: &Requirement, limit: usize) -> (found:
    Resolution)
    ensures
        found.answers(id@, versions@, *req, limit as nat),
{
    let chosen: Vec<Version> = resolve(versions, req, limit);
    if limit == 1 {
        if chosen.len() > 0 {
            Resolution::One(Mod { id: id.to_owned(), version: chosen[0] })
        } else {
            Resolution::NotFound
        }
    } else {
        let mut mods: Vec<Mod> = Vec::new();
        let mut i: usize = 0;
        while i < chosen.len()
            invariant
                0 <= i <= chosen.len(),
                mods.len() == i,
                forall|k: int| 0 <= k < i ==> (#[trigger] mods[k]).id@ == id@,
                forall|k: int| 0 <= k < i ==> (#[trigger] mods[k]).version == chosen[k],
            decreases chosen.len() - i,
        {
            mods.push(Mod { id: id.to_owned(), version: chosen[i] });
            i += 1;
        }
        assert(versions_in(mods@) =~= chosen@);
        Resolution::Many(mods)
    }
}

} // verus!
