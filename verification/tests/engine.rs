use mod_registry::catalog::Mod;
use mod_registry::coordinator::{
    add_key_status, answer, delete_key_status, key_target, Answer, Delete, KeyTarget, Publish,
    Resolution, Status,
};
use mod_registry::requirement::Requirement;
use mod_registry::resolve::{any_version, judge, one, resolve, select};
use mod_registry::version::Version;

fn versions(triples: &[(u64, u64, u64)]) -> Vec<Version> {
    triples.iter().map(|t| Version::new(t.0, t.1, t.2)).collect()
}

#[test]
fn the_default_limit_is_one() {
    assert_eq!(one(), 1);
}

#[test]
fn the_default_requirement_matches_everything() {
    let any = any_version();
    assert!(any.matches(&Version::new(0, 0, 0)));
    assert!(any.matches(&Version::new(1, 2, 3)));
    assert!(any.matches(&Version::new(u64::MAX, u64::MAX, u64::MAX)));
}

#[test]
fn requirements_are_read_and_judged_by_semver() {
    assert!(Requirement::parse("^1").is_some());
    assert!(Requirement::parse("*").is_some());
    assert!(Requirement::parse(">=1.2.3, <2").is_some());
    assert!(Requirement::parse("").is_none());
    assert!(Requirement::parse("@1.0.0").is_none());
    assert!(Requirement::parse(">a.b").is_none());
    assert!(Requirement::parse("not a requirement").is_none());

    let caret = Requirement::parse("^1").unwrap();
    assert!(caret.matches(&Version::new(1, 0, 0)));
    assert!(caret.matches(&Version::new(1, 2, 0)));
    assert!(!caret.matches(&Version::new(2, 0, 0)));
    assert!(!caret.matches(&Version::new(0, 9, 0)));

    let tilde = Requirement::parse("~3").unwrap();
    assert!(!tilde.matches(&Version::new(2, 3, 4)));
    assert!(tilde.matches(&Version::new(3, 9, 1)));

    let range = Requirement::parse(">=1.2.3, <2").unwrap();
    assert!(!range.matches(&Version::new(1, 2, 2)));
    assert!(range.matches(&Version::new(1, 2, 3)));
    assert!(!range.matches(&Version::new(2, 0, 0)));

    let exact = Requirement::parse("=1.2.3").unwrap();
    assert!(exact.matches(&Version::new(1, 2, 3)));
    assert!(!exact.matches(&Version::new(1, 2, 4)));

    let star = Requirement::parse("*").unwrap();
    assert!(star.matches(&Version::new(0, 0, 0)));
}

#[test]
fn select_keeps_the_flagged_versions_in_order() {
    let vs = versions(&[(3, 0, 0), (2, 0, 0), (1, 5, 0), (1, 0, 0)]);
    let flags = vec![false, true, false, true];
    assert_eq!(select(&vs, &flags, 0), versions(&[(2, 0, 0), (1, 0, 0)]));
    assert_eq!(select(&vs, &flags, 1), versions(&[(2, 0, 0)]));
    assert_eq!(select(&vs, &flags, 2), versions(&[(2, 0, 0), (1, 0, 0)]));
    assert_eq!(select(&vs, &flags, 3), versions(&[(2, 0, 0), (1, 0, 0)]));
    assert_eq!(select(&vs, &vec![true; 4], 3), versions(&[(3, 0, 0), (2, 0, 0), (1, 5, 0)]));
    assert_eq!(select(&vs, &vec![false; 4], 0), vec![]);
    assert_eq!(select(&vs, &vec![false; 4], 1), vec![]);
    // a version without a flag is not kept
    assert_eq!(select(&vs, &vec![true, true], 0), versions(&[(3, 0, 0), (2, 0, 0)]));
    assert_eq!(select(&vs, &vec![], 0), vec![]);
    assert_eq!(select(&vec![], &vec![true], 0), vec![]);
}

#[test]
fn judge_asks_the_requirement_about_each_version() {
    let vs = versions(&[(2, 1, 0), (1, 2, 0), (1, 0, 0), (0, 1, 0)]);
    let req = Requirement::parse("^1").unwrap();
    assert_eq!(judge(&vs, &req), vec![false, true, true, false]);
    assert_eq!(judge(&vs, &any_version()), vec![true; 4]);
    assert_eq!(judge(&vec![], &req), Vec::<bool>::new());
}

#[test]
fn resolve_filters_then_limits() {
    let vs = versions(&[(2, 1, 0), (1, 2, 0), (1, 0, 0), (0, 1, 0)]);
    let req = Requirement::parse("<2").unwrap();
    assert_eq!(resolve(&vs, &req, 0), versions(&[(1, 2, 0), (1, 0, 0), (0, 1, 0)]));
    assert_eq!(resolve(&vs, &req, 1), versions(&[(1, 2, 0)]));
    assert_eq!(resolve(&vs, &req, 2), versions(&[(1, 2, 0), (1, 0, 0)]));
    assert_eq!(resolve(&vs, &req, usize::MAX), versions(&[(1, 2, 0), (1, 0, 0), (0, 1, 0)]));
}

#[test]
fn an_answer_has_the_shape_that_the_limit_asks_for() {
    let vs = versions(&[(1, 2, 0), (1, 0, 0)]);
    let m = |major, minor, patch| Mod { id: "bshook".to_owned(), version: Version::new(major, minor, patch) };
    let caret = Requirement::parse("^1").unwrap();
    assert_eq!(answer("bshook", &vs, &caret, 1), Resolution::One(m(1, 2, 0)));
    assert_eq!(answer("bshook", &vs, &caret, 0), Resolution::Many(vec![m(1, 2, 0), m(1, 0, 0)]));
    assert_eq!(answer("bshook", &vs, &caret, 5), Resolution::Many(vec![m(1, 2, 0), m(1, 0, 0)]));
    let none = Requirement::parse("^2").unwrap();
    assert_eq!(answer("bshook", &vs, &none, 1), Resolution::NotFound);
    assert_eq!(answer("bshook", &vs, &none, 0), Resolution::Many(vec![]));
    assert_eq!(answer("bshook", &vs, &none, 1).status(), Status::NotFound);
    assert_eq!(answer("bshook", &vs, &none, 0).status(), Status::Success);
    assert_eq!(answer("bshook", &vs, &caret, 1).status(), Status::Success);
}

#[test]
fn each_status_has_its_code() {
    assert_eq!(Status::Success.code(), 200);
    assert_eq!(Status::Created.code(), 201);
    assert_eq!(Status::BadRequest.code(), 400);
    assert_eq!(Status::Unauthorized.code(), 401);
    assert_eq!(Status::NotFound.code(), 404);
    assert_eq!(Status::Conflict.code(), 409);
    assert_eq!(Status::InternalError.code(), 500);
    assert_eq!(Answer::of(true), Answer::Yes);
    assert_eq!(Answer::of(false), Answer::No);
    assert_eq!(Answer::of_rows(0), Answer::No);
    assert_eq!(Answer::of_rows(1), Answer::Yes);
    assert_eq!(Answer::of_rows(u64::MAX), Answer::Yes);
}

#[test]
fn a_publish_goes_through_token_row_and_artifact() {
    assert_eq!(Publish::start(false), Publish::Done(Status::Unauthorized));
    let run = Publish::start(true);
    assert_eq!(run, Publish::ResolveToken);
    let run = run.step(Answer::Yes);
    assert_eq!(run, Publish::InsertRow);
    let run = run.step(Answer::Yes);
    assert_eq!(run, Publish::WriteArtifact);
    let run = run.step(Answer::Yes);
    assert_eq!(run, Publish::Done(Status::Created));
    assert_eq!(run.step(Answer::Failed), Publish::Done(Status::Created));
}

#[test]
fn a_publish_stops_at_the_first_refusal() {
    assert_eq!(Publish::ResolveToken.step(Answer::No), Publish::Done(Status::Unauthorized));
    assert_eq!(Publish::ResolveToken.step(Answer::Failed), Publish::Done(Status::InternalError));
    assert_eq!(Publish::InsertRow.step(Answer::No), Publish::Done(Status::Conflict));
    assert_eq!(Publish::InsertRow.step(Answer::Failed), Publish::Done(Status::InternalError));
    assert_eq!(Publish::WriteArtifact.step(Answer::No), Publish::Done(Status::InternalError));
    assert_eq!(Publish::WriteArtifact.step(Answer::Failed), Publish::Done(Status::InternalError));
}

#[test]
fn a_delete_removes_file_directories_and_row() {
    assert_eq!(Delete::start(false), Delete::Done(Status::Unauthorized));
    let run = Delete::start(true);
    assert_eq!(run, Delete::RemoveFile);
    let run = run.step(Answer::Yes);
    assert_eq!(run, Delete::RemoveDirectory(0));
    let run = run.step(Answer::Yes);
    assert_eq!(run, Delete::RemoveDirectory(1));
    let run = run.step(Answer::Yes);
    assert_eq!(run, Delete::RemoveDirectory(2));
    let run = run.step(Answer::Yes);
    assert_eq!(run, Delete::DeleteRow);
    assert_eq!(run.step(Answer::Yes), Delete::Done(Status::Success));
    assert_eq!(run.step(Answer::No), Delete::Done(Status::NotFound));
    assert_eq!(run.step(Answer::Failed), Delete::Done(Status::InternalError));
}

#[test]
fn a_delete_stops_walking_at_the_first_directory_that_stays() {
    assert_eq!(Delete::RemoveDirectory(0).step(Answer::No), Delete::DeleteRow);
    assert_eq!(Delete::RemoveDirectory(0).step(Answer::Failed), Delete::DeleteRow);
    assert_eq!(Delete::RemoveDirectory(1).step(Answer::No), Delete::DeleteRow);
    assert_eq!(Delete::RemoveDirectory(2).step(Answer::Yes), Delete::DeleteRow);
    assert_eq!(Delete::RemoveDirectory(usize::MAX).step(Answer::Yes), Delete::DeleteRow);
    assert_eq!(Delete::RemoveFile.step(Answer::No), Delete::Done(Status::NotFound));
    assert_eq!(Delete::RemoveFile.step(Answer::Failed), Delete::Done(Status::InternalError));
}

#[test]
fn credential_requests_report_what_the_store_answered() {
    assert_eq!(add_key_status(Answer::Yes), Status::Created);
    assert_eq!(add_key_status(Answer::No), Status::Conflict);
    assert_eq!(add_key_status(Answer::Failed), Status::InternalError);
    assert_eq!(delete_key_status(Answer::Yes), Status::Success);
    assert_eq!(delete_key_status(Answer::No), Status::NotFound);
    assert_eq!(delete_key_status(Answer::Failed), Status::InternalError);
    assert_eq!(key_target(true, true), KeyTarget::Token);
    assert_eq!(key_target(true, false), KeyTarget::Token);
    assert_eq!(key_target(false, true), KeyTarget::User);
    assert_eq!(key_target(false, false), KeyTarget::Neither);
}
