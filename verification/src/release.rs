//! The update check's decision: whether the latest published release is
//! newer than the running version, and what is then offered.

use vstd::prelude::*;
use vstd::string::*;
use crate::project::{trim_text, trimmed};
use crate::text::{chars_of, string_from_chars};

verus! {

/// A published release as the release service describes it.
#[derive(Debug, Clone)]
pub struct GitHubRelease {
    pub tag_name: String,
    pub name: Option<String>,
    pub html_url: String,
}

/// A newer release that can be offered.
#[derive(Debug, Clone, PartialEq, Eq)]
pub struct ReleaseUpdate {
    pub version: String,
    pub title: String,
    pub url: String,
}

/// Where the update check stands.
#[derive(Debug, Clone, PartialEq, Eq)]
pub enum UpdateCheckStatus {
    Idle,
    Checking,
    UpToDate,
    UpdateAvailable(ReleaseUpdate),
    Failed,
}

/// A version text without surrounding whitespace and without one leading `v` or `V`.
pub open spec fn spec_normalize_version(version: Seq<char>) -> Seq<char> {
    let t = trimmed(version);
    if t.len() > 0 && (t[0] == 'v' || t[0] == 'V') { t.drop_first() } else { t }
}

/// Trims a version text and drops a leading `v` or `V`.
pub fn normalize_version(version: &str) -> (r: String)
    ensures
        r@ == spec_normalize_version(version@),
{
    let t = trim_text(version);
    let chars = chars_of(t.as_str());
    if chars.len() > 0 && (chars[0] == 'v' || chars[0] == 'V') {
        let rest = vstd::slice::slice_subrange(chars.as_slice(), 1, chars.len());
        let r = string_from_chars(rest);
        assert(r@ =~= t@.drop_first());
        r
    } else {
        t
    }
}

/// Name for what the `semver` crate decides of two version texts: both
/// parse with `semver::Version::parse` and the second is greater under
/// `Version`'s order.
pub uninterp spec fn semver_is_newer(current: Seq<char>, candidate: Seq<char>) -> bool;

/// Parses both texts with `semver::Version::parse` and compares the
/// versions with `>`; false when either does not parse. The result is
/// named by `semver_is_newer`; a version is never newer than itself, since
/// `Version`'s order is derived and reflexive.
#[verifier::external_body]
fn semver_newer(current: &str, candidate: &str) -> (r: bool)
    ensures
        r == semver_is_newer(current@, candidate@),
        current@ == candidate@ ==> !r,
{
    match (semver::Version::parse(current), semver::Version::parse(candidate)) {
        (Ok(current), Ok(latest)) => latest > current,
        _ => false,
    }
}

/// Whether a release tag names a newer version than the running one,
/// both read after `normalize_version`.
pub fn is_newer_version(current_version: &str, release_tag: &str) -> (r: bool)
    ensures
        r == semver_is_newer(spec_normalize_version(current_version@), spec_normalize_version(release_tag@)),
{
    let current = normalize_version(current_version);
    let latest = normalize_version(release_tag);
    semver_newer(current.as_str(), latest.as_str())
}

/// The title offered for a release: its name unless that is blank, else its tag.
pub open spec fn release_title(release: GitHubRelease) -> Seq<char> {
    match release.name {
        Some(n) => if trimmed(n@).len() > 0 { n@ } else { release.tag_name@ },
        None => release.tag_name@,
    }
}

/// The outcome of a check that found `release`: an update when its tag is
/// newer than `current_version`, else up to date.
pub fn update_status_for_release(current_version: &str, release: GitHubRelease) -> (r: UpdateCheckStatus)
    ensures
        semver_is_newer(spec_normalize_version(current_version@), spec_normalize_version(release.tag_name@))
            ==> (r matches UpdateCheckStatus::UpdateAvailable(u) && u.version@ == release.tag_name@
                && u.title@ == release_title(release) && u.url@ == release.html_url@),
        !semver_is_newer(spec_normalize_version(current_version@), spec_normalize_version(release.tag_name@))
            ==> r == UpdateCheckStatus::UpToDate,
{
    if is_newer_version(current_version, release.tag_name.as_str()) {
        let title = match &release.name {
            Some(name) => {
                let t = trim_text(name.as_str());
                if t.as_str().is_empty() { release.tag_name.clone() } else { name.clone() }
            },
            None => release.tag_name.clone(),
        };
        UpdateCheckStatus::UpdateAvailable(ReleaseUpdate { version: release.tag_name, title, url: release.html_url })
    } else {
        UpdateCheckStatus::UpToDate
    }
}

} // verus!
