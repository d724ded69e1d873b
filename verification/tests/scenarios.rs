use mod_registry::catalog::Mod;
use mod_registry::coordinator::{Answer, Publish, Resolution, Status};
use mod_registry::keys::{AdminKeys, PublishKey};
use mod_registry::registry::Registry;
use mod_registry::requirement::Requirement;
use mod_registry::resolve::{any_version, one};
use mod_registry::version::Version;

fn registry_with_publisher() -> Registry {
    let mut registry = Registry::new(AdminKeys::new(vec!["admin_password".to_owned()]));
    let status = registry.add_key("test", "password", Some("admin_password"));
    assert_eq!(status, Status::Created);
    registry
}

fn bshook(major: u64, minor: u64, patch: u64) -> Mod {
    Mod { id: "bshook".to_owned(), version: Version::new(major, minor, patch) }
}

#[test]
fn test() {
    let mut registry = Registry::new(AdminKeys::new(vec!["admin_password".to_owned()]));

    // Upload our mod upload key
    let status = registry.add_key("test", "password", Some("admin_password"));
    assert_eq!(status.code(), 201);

    // Upload some mods
    let status =
        registry.upload("bshook", &Version::new(1, 0, 0), b"bshook-1.0.0".to_vec(), Some("password"));
    assert_eq!(status.code(), 201);
    let status =
        registry.upload("bshook", &Version::new(1, 2, 0), b"bshook-1.2.0".to_vec(), Some("password"));
    assert_eq!(status.code(), 201);
    let status =
        registry.upload("hsv", &Version::new(2, 3, 4), b"hsv-2.3.4".to_vec(), Some("password"));
    assert_eq!(status.code(), 201);

    // Try uploading a duplicate
    let status = registry.upload(
        "bshook",
        &Version::new(1, 0, 0),
        b"bshook-1.0.0 number two".to_vec(),
        Some("password"),
    );
    assert_eq!(status.code(), 409);

    // Try uploading without a key
    let status = registry.upload("hsv", &Version::new(5, 0, 0), b"hsv-2.3.4".to_vec(), None);
    assert_eq!(status.code(), 401);

    // Try uploading with an invalid key
    let status =
        registry.upload("hsv", &Version::new(5, 0, 0), b"hsv-2.3.4".to_vec(), Some("not password"));
    assert_eq!(status.code(), 401);

    // Download a mod
    let found = registry.download("bshook", &Version::new(1, 0, 0));
    assert_eq!(found, Some(b"bshook-1.0.0".to_vec()));

    // Try downloading a mod that doesn't exist
    let found = registry.download("bshook", &Version::new(3, 0, 0));
    assert_eq!(found, None);

    // Get the latest version of a mod matching the requirements
    let req = Requirement::parse("^1").unwrap();
    let found = registry.resolve("bshook", &req, one());
    assert_eq!(found.status().code(), 200);
    assert_eq!(found, Resolution::One(bshook(1, 2, 0)));

    // Get all the versions of a mod matching the requirements
    let found = registry.resolve("bshook", &req, 0);
    assert_eq!(found.status().code(), 200);
    assert_eq!(found, Resolution::Many(vec![bshook(1, 2, 0), bshook(1, 0, 0)]));

    // Try to get a version of a mod with requirements that can't match
    let req = Requirement::parse("~3").unwrap();
    let found = registry.resolve("hsv", &req, one());
    assert_eq!(found.status().code(), 404);

    // List all mods
    assert_eq!(registry.list(), vec!["bshook", "hsv"]);

    // Delete mod
    let status = registry.delete("hsv", &Version::new(2, 3, 4), Some("admin_password"));
    assert_eq!(status.code(), 200);

    // Confirm mod deleted
    let status =
        registry.upload("hsv", &Version::new(2, 3, 4), b"hsv-2.3.4".to_vec(), Some("password"));
    assert_eq!(status.code(), 201);

    // Delete key
    let status = registry.delete_key(Some("password"), None, Some("admin_password"));
    assert_eq!(status.code(), 200);

    // Try to add but with a key that was deleted
    let status =
        registry.upload("hsv", &Version::new(2, 3, 5), b"hsv-2.3.5".to_vec(), Some("password"));
    assert_eq!(status.code(), 401);
}

#[test]
fn publishing_a_key_twice_conflicts() {
    let mut registry = registry_with_publisher();
    let v = Version::new(1, 0, 0);
    assert_eq!(registry.upload("bshook", &v, b"bshook-1.0.0".to_vec(), Some("password")), Status::Created);
    assert_eq!(registry.upload("bshook", &v, b"other".to_vec(), Some("password")), Status::Conflict);
    // the bytes of the first publish stay
    assert_eq!(registry.download("bshook", &v), Some(b"bshook-1.0.0".to_vec()));
    assert_eq!(registry.catalog.versions_descending("bshook"), vec![v]);
}

#[test]
fn publishing_two_versions_creates_both() {
    let mut registry = registry_with_publisher();
    assert_eq!(
        registry.upload("bshook", &Version::new(1, 0, 0), b"bshook-1.0.0".to_vec(), Some("password")),
        Status::Created
    );
    assert_eq!(
        registry.upload("bshook", &Version::new(1, 2, 0), b"bshook-1.2.0".to_vec(), Some("password")),
        Status::Created
    );
    assert_eq!(
        registry.catalog.versions_descending("bshook"),
        vec![Version::new(1, 2, 0), Version::new(1, 0, 0)]
    );
}

#[test]
fn resolve_with_default_limit_gives_the_newest_match() {
    let mut registry = registry_with_publisher();
    registry.upload("bshook", &Version::new(1, 0, 0), b"bshook-1.0.0".to_vec(), Some("password"));
    registry.upload("bshook", &Version::new(1, 2, 0), b"bshook-1.2.0".to_vec(), Some("password"));
    registry.upload("bshook", &Version::new(2, 0, 0), b"bshook-2.0.0".to_vec(), Some("password"));
    let req = Requirement::parse("^1").unwrap();
    assert_eq!(registry.resolve("bshook", &req, one()), Resolution::One(bshook(1, 2, 0)));
    assert_eq!(registry.resolve("bshook", &any_version(), one()), Resolution::One(bshook(2, 0, 0)));
}

#[test]
fn resolve_with_limit_zero_gives_every_match_newest_first() {
    let mut registry = registry_with_publisher();
    registry.upload("bshook", &Version::new(1, 0, 0), b"bshook-1.0.0".to_vec(), Some("password"));
    registry.upload("bshook", &Version::new(2, 0, 0), b"bshook-2.0.0".to_vec(), Some("password"));
    registry.upload("bshook", &Version::new(1, 2, 0), b"bshook-1.2.0".to_vec(), Some("password"));
    let req = Requirement::parse("^1").unwrap();
    assert_eq!(
        registry.resolve("bshook", &req, 0),
        Resolution::Many(vec![bshook(1, 2, 0), bshook(1, 0, 0)])
    );
}

#[test]
fn resolve_with_a_limit_gives_that_many_at_most() {
    let mut registry = registry_with_publisher();
    for minor in [3u64, 1, 4, 2] {
        registry.upload("bshook", &Version::new(1, minor, 0), vec![1], Some("password"));
    }
    let req = Requirement::parse(">=1.2").unwrap();
    assert_eq!(
        registry.resolve("bshook", &req, 2),
        Resolution::Many(vec![bshook(1, 4, 0), bshook(1, 3, 0)])
    );
    assert_eq!(
        registry.resolve("bshook", &req, 7),
        Resolution::Many(vec![bshook(1, 4, 0), bshook(1, 3, 0), bshook(1, 2, 0)])
    );
    assert_eq!(registry.resolve("nothing", &req, 2), Resolution::Many(vec![]));
    assert_eq!(registry.resolve("nothing", &req, 1), Resolution::NotFound);
}

#[test]
fn downloading_what_was_never_published_finds_nothing() {
    let mut registry = registry_with_publisher();
    registry.upload("bshook", &Version::new(1, 0, 0), b"bshook-1.0.0".to_vec(), Some("password"));
    assert_eq!(registry.download("bshook", &Version::new(3, 0, 0)), None);
    assert_eq!(registry.download("hsv", &Version::new(1, 0, 0)), None);
}

#[test]
fn download_returns_the_exact_bytes() {
    let mut registry = registry_with_publisher();
    let bytes: Vec<u8> = vec![0xff, 0x00, 0xfe, 0x80, 0xc3, 0x28, 0x0a];
    let v = Version::new(0, 0, 1);
    assert_eq!(registry.upload("blob", &v, bytes.clone(), Some("password")), Status::Created);
    assert_eq!(registry.download("blob", &v), Some(bytes.clone()));
    assert_eq!(registry.download("blob", &v), Some(bytes));
}

#[test]
fn delete_then_publish_again_is_created() {
    let mut registry = registry_with_publisher();
    let v = Version::new(2, 3, 4);
    assert_eq!(registry.upload("hsv", &v, b"hsv-2.3.4".to_vec(), Some("password")), Status::Created);
    assert_eq!(registry.delete("hsv", &v, Some("admin_password")), Status::Success);
    assert_eq!(registry.list(), Vec::<String>::new());
    assert_eq!(registry.catalog.versions_descending("hsv"), vec![]);
    assert_eq!(registry.upload("hsv", &v, b"again".to_vec(), Some("password")), Status::Created);
    assert_eq!(registry.download("hsv", &v), Some(b"again".to_vec()));
}

#[test]
fn delete_needs_an_admin_token() {
    let mut registry = registry_with_publisher();
    let v = Version::new(2, 3, 4);
    registry.upload("hsv", &v, b"hsv-2.3.4".to_vec(), Some("password"));
    assert_eq!(registry.delete("hsv", &v, Some("password")), Status::Unauthorized);
    assert_eq!(registry.delete("hsv", &v, None), Status::Unauthorized);
    assert_eq!(registry.catalog.versions_descending("hsv"), vec![v]);
}

#[test]
fn deleting_what_is_not_stored_is_not_found() {
    let mut registry = registry_with_publisher();
    let v = Version::new(2, 3, 4);
    assert_eq!(registry.delete("hsv", &v, Some("admin_password")), Status::NotFound);
    // a row without a stored artifact is left alone
    assert!(Mod::insert("hsv", &v, &mut registry.catalog));
    assert_eq!(registry.delete("hsv", &v, Some("admin_password")), Status::NotFound);
    assert_eq!(registry.catalog.versions_descending("hsv"), vec![v]);
}

#[test]
fn deleting_a_stored_artifact_without_a_row_is_not_found() {
    let mut registry = registry_with_publisher();
    let v = Version::new(2, 3, 4);
    registry.files.write_file("hsv".to_owned(), v, vec![7]);
    assert_eq!(registry.delete("hsv", &v, Some("admin_password")), Status::NotFound);
    // the file is gone all the same
    assert!(!registry.files.remove_file("hsv", &v));
}

#[test]
fn a_download_after_delete_is_answered_by_the_cache() {
    let mut registry = registry_with_publisher();
    let v = Version::new(2, 3, 4);
    registry.upload("hsv", &v, b"hsv-2.3.4".to_vec(), Some("password"));
    assert_eq!(registry.delete("hsv", &v, Some("admin_password")), Status::Success);
    assert_eq!(registry.download("hsv", &v), Some(b"hsv-2.3.4".to_vec()));
}

#[test]
fn a_removed_token_cannot_publish() {
    let mut registry = registry_with_publisher();
    assert_eq!(registry.delete_key(Some("password"), None, Some("admin_password")), Status::Success);
    assert_eq!(
        registry.upload("hsv", &Version::new(2, 3, 5), b"hsv-2.3.5".to_vec(), Some("password")),
        Status::Unauthorized
    );
    assert_eq!(registry.list(), Vec::<String>::new());
}

#[test]
fn a_publish_without_a_known_token_adds_no_row() {
    let mut registry = registry_with_publisher();
    let v = Version::new(5, 0, 0);
    assert_eq!(registry.upload("hsv", &v, vec![1], None), Status::Unauthorized);
    assert_eq!(registry.upload("hsv", &v, vec![1], Some("admin_password")), Status::Unauthorized);
    assert_eq!(registry.upload("hsv", &v, vec![1], Some("")), Status::Unauthorized);
    assert_eq!(registry.list(), Vec::<String>::new());
    assert_eq!(registry.download("hsv", &v), None);
}

#[test]
fn adding_and_removing_credentials() {
    let mut registry = Registry::new(AdminKeys::new(vec!["a".to_owned(), "b".to_owned()]));
    assert_eq!(registry.add_key("ann", "t1", Some("a")), Status::Created);
    assert_eq!(registry.add_key("ann", "t2", Some("b")), Status::Created);
    assert_eq!(registry.add_key("bob", "t3", Some("a")), Status::Created);
    assert_eq!(registry.add_key("bob", "t1", Some("a")), Status::Conflict);
    assert_eq!(registry.add_key("eve", "t9", Some("t1")), Status::Unauthorized);
    assert_eq!(registry.add_key("eve", "t9", None), Status::Unauthorized);
    assert!(registry.auth(Some("t1")) && registry.auth(Some("t2")) && registry.auth(Some("t3")));
    assert!(!registry.auth(Some("t9")) && !registry.auth(None));
    assert!(registry.auth_admin(Some("b")) && !registry.auth_admin(Some("t1")));

    assert_eq!(registry.delete_key(None, None, Some("a")), Status::BadRequest);
    assert_eq!(registry.delete_key(Some("t1"), None, None), Status::Unauthorized);
    assert_eq!(registry.delete_key(None, Some("ann"), Some("a")), Status::Success);
    assert!(!registry.auth(Some("t1")) && !registry.auth(Some("t2")) && registry.auth(Some("t3")));
    assert_eq!(registry.delete_key(None, Some("ann"), Some("a")), Status::NotFound);
    // a token is looked at before a user
    assert_eq!(registry.delete_key(Some("nope"), Some("bob"), Some("a")), Status::NotFound);
    assert!(registry.auth(Some("t3")));
    assert_eq!(registry.delete_key(Some("t3"), Some("nobody"), Some("a")), Status::Success);
    assert!(!registry.auth(Some("t3")));
}

/// Takes the pending step of one publish against the shared stores.
fn take_step(run: Publish, registry: &mut Registry, body: &[u8], writes: &mut Vec<Vec<u8>>) -> Publish {
    let v = Version::new(1, 0, 0);
    let said = match run {
        Publish::ResolveToken => {
            Answer::of(PublishKey::resolve_one("password", &registry.keys).is_some())
        }
        Publish::InsertRow => Answer::of(Mod::insert("bshook", &v, &mut registry.catalog)),
        Publish::WriteArtifact => {
            registry.files.write_file("bshook".to_owned(), v, body.to_vec());
            writes.push(body.to_vec());
            Answer::Yes
        }
        Publish::Done(_) => return run,
    };
    run.step(said)
}

#[test]
fn two_publishes_of_one_key_have_one_winner() {
    // every order in which the three steps of two publishes can fall
    for schedule in 0u32..64 {
        let mut registry = registry_with_publisher();
        let mut writes: Vec<Vec<u8>> = Vec::new();
        let mut first = Publish::start(true);
        let mut second = Publish::start(true);
        for turn in 0..6 {
            if schedule >> turn & 1 == 0 {
                first = take_step(first, &mut registry, b"first", &mut writes);
            } else {
                second = take_step(second, &mut registry, b"second", &mut writes);
            }
        }
        // let both run to their end
        for _ in 0..3 {
            first = take_step(first, &mut registry, b"first", &mut writes);
            second = take_step(second, &mut registry, b"second", &mut writes);
        }
        let created = Publish::Done(Status::Created);
        let conflict = Publish::Done(Status::Conflict);
        assert!(
            (first == created && second == conflict) || (first == conflict && second == created)
        );
        assert_eq!(writes.len(), 1);
        let winner: &[u8] = if first == created { b"first" } else { b"second" };
        assert_eq!(writes[0], winner);
        assert_eq!(registry.download("bshook", &Version::new(1, 0, 0)), Some(winner.to_vec()));
        assert_eq!(registry.catalog.versions_descending("bshook"), vec![Version::new(1, 0, 0)]);
    }
}
