use vstd::prelude::*;

pub mod report;
pub mod resolve;
pub mod versions;

use crate::text::{push_str, to_owned_string};

verus! {

pub const MANIFEST_FILENAME: &'static str = "vibe.toml";

pub const LOCK_FILENAME: &'static str = "vibe.lock";

pub const LOCK_SCHEMA_VERSION: u32 = 1;

pub const REGISTRY_INDEX_FILENAME: &'static str = "index.toml";

#[derive(Debug, Clone, PartialEq, Eq)]
pub struct PackageSection {
    pub name: String,
    pub version: String,
    pub license: Option<String>,
}

/// A package manifest; dependencies are (name, requirement) pairs in
/// increasing name order.
#[derive(Debug, Clone, PartialEq, Eq)]
pub struct Manifest {
    pub package: PackageSection,
    pub dependencies: Vec<(String, String)>,
}

#[derive(Debug, Clone, PartialEq, Eq)]
pub struct ResolvedPackage {
    pub name: String,
    pub version: String,
    pub source: String,
    pub dependencies: Vec<(String, String)>,
}

#[derive(Debug, Clone, PartialEq, Eq)]
pub struct Resolution {
    pub root: PackageSection,
    pub packages: Vec<ResolvedPackage>,
}

#[derive(Debug, Clone, PartialEq, Eq)]
pub struct Lockfile {
    pub version: u32,
    pub package: Vec<ResolvedPackage>,
}

#[derive(Debug, Clone, PartialEq, Eq)]
pub struct InstallReport {
    pub installed: usize,
    pub lock_path: String,
    pub store_root: String,
}

#[derive(Debug, Clone, PartialEq, Eq)]
pub struct PublishReport {
    pub package: String,
    pub version: String,
    pub published_dir: String,
    pub index_path: String,
}

#[derive(Debug, Clone, PartialEq, Eq)]
pub struct AuditFinding {
    pub kind: String,
    pub package: String,
    pub version: String,
    pub detail: String,
}

#[derive(Debug, Clone, PartialEq, Eq)]
pub struct AuditReport {
    pub scanned: usize,
    pub findings: Vec<AuditFinding>,
}

#[derive(Debug, Clone, PartialEq, Eq)]
pub struct UpgradeEntry {
    pub package: String,
    pub current: String,
    pub latest_compatible: String,
    pub latest_available: String,
    pub requires_manifest_change: bool,
}

#[derive(Debug, Clone, PartialEq, Eq)]
pub struct UpgradeReport {
    pub entries: Vec<UpgradeEntry>,
}

#[derive(Debug, Clone, Copy, PartialEq, Eq, Structural)]
pub enum SemverDelta {
    Patch,
    Minor,
    Major,
    Unchanged,
}

/// A parsed semantic version: the numbers, and the pre-release and build
/// identifiers as text.
#[derive(Debug, Clone, PartialEq, Eq)]
pub struct ParsedVersion {
    pub major: u64,
    pub minor: u64,
    pub patch: u64,
    pub pre: String,
    pub build: String,
}

pub type VersionParts = (u64, u64, u64, Seq<char>, Seq<char>);

/// What `semver::Version::parse` gives for a text: the version's parts,
/// or the text of its error.
pub uninterp spec fn semver_parse(text: Seq<char>) -> Result<(u64, u64, u64, Seq<char>, Seq<char>), Seq<char>>;

/// `semver::Version::parse`: the parts of the version (pre-release and
/// build as their text), or the error's message. The result is named
/// `semver_parse`; the grammar of versions is not written out.
#[verifier::external_body]
pub(crate) fn parse_version(text: &str) -> (r: Result<ParsedVersion, String>)
    ensures
        match r {
            Ok(v) => semver_parse(text@) == Ok::<VersionParts, Seq<char>>(
                (v.major, v.minor, v.patch, v.pre@, v.build@),
            ),
            Err(e) => semver_parse(text@) == Err::<VersionParts, Seq<char>>(e@),
        },
{
    match semver::Version::parse(text) {
        Ok(v) => Ok(
            ParsedVersion {
                major: v.major,
                minor: v.minor,
                patch: v.patch,
                pre: v.pre.as_str().to_string(),
                build: v.build.as_str().to_string(),
            },
        ),
        Err(e) => Err(e.to_string()),
    }
}

/// The kind of change from one version to the next: none when all parts
/// are equal, else major when the major numbers differ, else minor when
/// the minor numbers differ, else patch.
pub open spec fn semver_delta_spec(current: VersionParts, next: VersionParts) -> SemverDelta {
    if next == current {
        SemverDelta::Unchanged
    } else if next.0 != current.0 {
        SemverDelta::Major
    } else if next.1 != current.1 {
        SemverDelta::Minor
    } else {
        SemverDelta::Patch
    }
}

pub open spec fn parts(v: ParsedVersion) -> VersionParts {
    (v.major, v.minor, v.patch, v.pre@, v.build@)
}

/// The kind of change between two parsed versions.
pub fn semver_delta_of(current: &ParsedVersion, next: &ParsedVersion) -> (r: SemverDelta)
    ensures
        r == semver_delta_spec(parts(*current), parts(*next)),
{
    let same = next.major == current.major && next.minor == current.minor && next.patch
        == current.patch && crate::text::str_eq(next.pre.as_str(), current.pre.as_str())
        && crate::text::str_eq(next.build.as_str(), current.build.as_str());
    if same {
        SemverDelta::Unchanged
    } else if next.major != current.major {
        SemverDelta::Major
    } else if next.minor != current.minor {
        SemverDelta::Minor
    } else {
        SemverDelta::Patch
    }
}

pub open spec fn invalid_version_message(flag: Seq<char>, text: Seq<char>, error: Seq<char>) -> Seq<
    char,
> {
    "invalid `--"@ + flag + "` version `"@ + text + "`: "@ + error
}

/// The result of `semver_delta` for given parse results.
pub open spec fn semver_delta_result(current: Seq<char>, next: Seq<char>) -> Result<SemverDelta, Seq<char>> {
    match semver_parse(current) {
        Err(e) => Err(invalid_version_message("current"@, current, e)),
        Ok(a) => match semver_parse(next) {
            Err(e) => Err(invalid_version_message("next"@, next, e)),
            Ok(b) => Ok(semver_delta_spec(a, b)),
        },
    }
}

fn invalid_version(flag: &str, text: &str, error: &str) -> (r: String)
    ensures
        r@ == invalid_version_message(flag@, text@, error@),
{
    let mut out = String::new();
    push_str(&mut out, "invalid `--");
    push_str(&mut out, flag);
    push_str(&mut out, "` version `");
    push_str(&mut out, text);
    push_str(&mut out, "`: ");
    push_str(&mut out, error);
    assert(out@ =~= invalid_version_message(flag@, text@, error@));
    out
}

/// Classifies the change from version `current` to version `next`; an
/// unparsable version is an error naming it.
pub fn semver_delta(current: &str, next: &str) -> (r: Result<SemverDelta, String>)
    ensures
        match r {
            Ok(d) => semver_delta_result(current@, next@) == Ok::<SemverDelta, Seq<char>>(d),
            Err(e) => semver_delta_result(current@, next@) == Err::<SemverDelta, Seq<char>>(e@),
        },
{
    let cur = match parse_version(current) {
        Ok(v) => v,
        Err(e) => {
            return Err(invalid_version("current", current, e.as_str()));
        },
    };
    let nxt = match parse_version(next) {
        Ok(v) => v,
        Err(e) => {
            return Err(invalid_version("next", next, e.as_str()));
        },
    };
    Ok(semver_delta_of(&cur, &nxt))
}

} // verus!
