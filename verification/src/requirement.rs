//! Version requirements, judged by the `semver` crate.

use crate::version::Version;
use vstd::prelude::*;

verus! {

/// Whether `semver::VersionReq::parse` accepts `text`.
pub uninterp spec fn requirement_parses(text: Seq<char>) -> bool;

/// Whether the requirement that `semver` reads from `text` is met by the
/// version `major.minor.patch` without pre-release or build labels, as
/// `semver::VersionReq::matches` decides it.
pub uninterp spec fn requirement_matches(text: Seq<char>, major: u64, minor: u64, patch: u64) -> bool;

/// Reads `text` with `semver::VersionReq::parse` and, where that succeeds,
/// asks `semver::VersionReq::matches` about the version built by
/// `semver::Version::new(major, minor, patch)`.
///
/// Trusted: the answer is `None` exactly when the text does not parse, and
/// otherwise the verdict of `matches`; both depend on the arguments alone.
#[verifier::external_body]
fn semver_verdict(text: &str, major: u64, minor: u64, patch: u64) -> (verdict: Option<bool>)
    ensures
        verdict.is_some() == requirement_parses(text@),
        verdict matches Some(b) ==> b == requirement_matches(text@, major, minor, patch),
{
    match semver::VersionReq::parse(text) {
        Ok(req) => Some(req.matches(&semver::Version::new(major, minor, patch))),
        Err(_) => None,
    }
}

/// A predicate over versions: either "any version", or a range written in
/// the requirement syntax of `semver` (`^1`, `~2.3`, `>=1.0, <2.0`, ...).
pub struct Requirement {
    range: Option<String>,
}

impl Requirement {
    #[verifier::type_invariant]
    spec fn range_parses(self) -> bool {
        self.range matches Some(t) ==> requirement_parses(t@)
    }

    /// The text of the range, or `None` for the requirement that every
    /// version meets.
    pub closed spec fn range(self) -> Option<Seq<char>> {
        match self.range {
            Some(t) => Some(t@),
            None => None,
        }
    }

    /// Whether `v` satisfies the requirement.
    pub open spec fn accepts(self, v: Version) -> bool {
        match self.range() {
            Some(t) => requirement_matches(t, v.major, v.minor, v.patch),
            None => true,
        }
    }

    /// The requirement that every version meets.
    pub fn any() -> (req: Requirement)
        ensures
            req.range() is None,
    {
        Requirement { range: None }
    }

    /// Reads a range; `None` where `text` is not in the requirement syntax.
    pub fn parse(text: &str) -> (req: Option<Requirement>)
        ensures
            req.is_some() == requirement_parses(text@),
            req matches Some(r) ==> r.range() == Some(text@),
    {
        match semver_verdict(text, 0, 0, 0) {
            Some(_) => Some(Requirement { range: Some(text.to_owned()) }),
            None => None,
        }
    }

    pub fn matches(&self, v: &Version) -> (b: bool)
        ensures
            b == self.accepts(*v),
    {
        proof {
            use_type_invariant(self);
        }
        match &self.range {
            Some(t) => {
                match semver_verdict(t.as_str(), v.major, v.minor, v.patch) {
                    Some(b) => b,
                    None => false,
                }
            },
            None => true,
        }
    }
}

/// Every version meets the requirement `any`.
pub proof fn any_accepts_every_version(req: Requirement, v: Version)
    requires
        req.range() is None,
    ensures
        req.accepts(v),
{
}

} // verus!
