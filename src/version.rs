//! Scripts may require a version of the runtime; the requirement is checked
//! with semantic-versioning rules.
use vstd::prelude::*;

verus! {

/// Whether semver accepts `text` as a version requirement.
pub uninterp spec fn req_syntax_ok(text: Seq<char>) -> bool;

/// Whether semver accepts `text` as a version.
pub uninterp spec fn version_syntax_ok(text: Seq<char>) -> bool;

/// Whether the version written `version` meets the requirement written `req`,
/// by semver's rules.
pub uninterp spec fn version_meets(req: Seq<char>, version: Seq<char>) -> bool;

/// Relies on semver::VersionReq::parse, whose outcome depends on the text alone.
#[verifier::external_body]
fn req_parses(text: &str) -> (r: bool)
    ensures
        r == req_syntax_ok(text@),
{
    semver::VersionReq::parse(text).is_ok()
}

/// Relies on semver::Version::parse, whose outcome depends on the text alone.
#[verifier::external_body]
fn version_parses(text: &str) -> (r: bool)
    ensures
        r == version_syntax_ok(text@),
{
    semver::Version::parse(text).is_ok()
}

/// Relies on semver::VersionReq::matches, applied to the requirement and the
/// version that semver parses from the two texts; its verdict depends on
/// the texts alone.
#[verifier::external_body]
fn req_matches(required: &str, current: &str) -> (r: bool)
    requires
        req_syntax_ok(required@),
        version_syntax_ok(current@),
    ensures
        r == version_meets(required@, current@),
{
    match (semver::VersionReq::parse(required), semver::Version::parse(current)) {
        (Ok(req), Ok(version)) => req.matches(&version),
        _ => false,
    }
}

/// The verdict on a requirement once it is known whether the running version
/// meets it.
pub fn version_verdict(meets: bool, current: &str, required: &str) -> (r: Result<
    (),
    crate::error::Error,
>)
    ensures
        meets ==> r is Ok,
        !meets ==> match r {
            Err(crate::error::Error::VersionMismatch(c, q)) => c@ == current@ && q@ == required@,
            _ => false,
        },
{
    if meets {
        Ok(())
    } else {
        Err(crate::error::Error::VersionMismatch(current.to_owned(), required.to_owned()))
    }
}

/// Checks that the running version `current` meets the requirement `required`.
pub fn require_version(required: &str, current: &str) -> (r: Result<(), crate::error::Error>)
    ensures
        !req_syntax_ok(required@) ==> match r {
            Err(crate::error::Error::InvalidVersion(t)) => t@ == required@,
            _ => false,
        },
        req_syntax_ok(required@) && !version_syntax_ok(current@) ==> match r {
            Err(crate::error::Error::InvalidVersion(t)) => t@ == current@,
            _ => false,
        },
        req_syntax_ok(required@) && version_syntax_ok(current@) ==> {
            &&& (r is Ok) == version_meets(required@, current@)
            &&& !version_meets(required@, current@) ==> match r {
                Err(crate::error::Error::VersionMismatch(c, q)) => c@ == current@ && q@ == required@,
                _ => false,
            }
        },
{
    if !req_parses(required) {
        return Err(crate::error::Error::InvalidVersion(required.to_owned()));
    }
    if !version_parses(current) {
        return Err(crate::error::Error::InvalidVersion(current.to_owned()));
    }
    let meets = req_matches(required, current);
    version_verdict(meets, current, required)
}

} // verus!
