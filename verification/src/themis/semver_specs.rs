//! What this library takes on trust about the `semver` crate. Nothing in
//! this file is proved: each contract restates what the function it names
//! is documented to do, or gives what it returns a name.

use vstd::prelude::*;
use semver::Version;
use semver::VersionReq;
use crate::themis::text::decimal;

verus! {

/// `semver::Version`, as a value that is only handed on.
#[verifier::external_type_specification]
#[verifier::external_body]
pub struct ExVersion(Version);

/// `semver::VersionReq`, as a value that is only handed on.
#[verifier::external_type_specification]
#[verifier::external_body]
pub struct ExVersionReq(VersionReq);

/// The parts of a version.
pub ghost struct VersionParts {
    pub major: u64,
    pub minor: u64,
    pub patch: u64,
    /// The pre-release tag; empty where the version has none.
    pub pre: Seq<char>,
    /// The build metadata; empty where the version has none.
    pub build: Seq<char>,
}

/// What a `Version` holds: its five public fields.
pub uninterp spec fn version_parts(v: Version) -> VersionParts;

/// How a version is displayed: the three numbers in decimal with dots
/// between them, then the pre-release tag after a hyphen and the build
/// metadata after a plus sign, each only where there is one.
pub open spec fn version_display(parts: VersionParts) -> Seq<char> {
    decimal(parts.major as nat) + seq!['.'] + decimal(parts.minor as nat) + seq!['.'] + decimal(
        parts.patch as nat,
    ) + (if parts.pre.len() > 0 {
        seq!['-'] + parts.pre
    } else {
        Seq::empty()
    }) + (if parts.build.len() > 0 {
        seq!['+'] + parts.build
    } else {
        Seq::empty()
    })
}

/// How a `VersionReq` is displayed.
pub uninterp spec fn version_req_text(req: VersionReq) -> Seq<char>;

/// The version that a text parses to; `None` where `Version::parse` refuses it.
pub uninterp spec fn parsed_version(text: Seq<char>) -> Option<Version>;

/// Whether a version satisfies a requirement, as `VersionReq::matches` evaluates it.
pub uninterp spec fn req_matches(req: VersionReq, v: Version) -> bool;

/// Whether `a` comes before `b` in the order of versions.
pub uninterp spec fn version_below(a: Version, b: Version) -> bool;

/// Reads the three numeric fields of a `Version`.
#[verifier::external_body]
pub(crate) fn version_numbers(v: &Version) -> (n: (u64, u64, u64))
    ensures
        n.0 == version_parts(*v).major,
        n.1 == version_parts(*v).minor,
        n.2 == version_parts(*v).patch,
{
    (v.major, v.minor, v.patch)
}

/// `Prerelease::is_empty` on the `pre` field of a `Version`.
#[verifier::external_body]
pub(crate) fn version_pre_is_empty(v: &Version) -> (b: bool)
    ensures
        b == (version_parts(*v).pre.len() == 0),
{
    v.pre.is_empty()
}

/// `BuildMetadata::is_empty` on the `build` field of a `Version`.
#[verifier::external_body]
pub(crate) fn version_build_is_empty(v: &Version) -> (b: bool)
    ensures
        b == (version_parts(*v).build.len() == 0),
{
    v.build.is_empty()
}

/// `Version::new`: the version with these three numbers, no pre-release tag
/// and no build metadata.
#[verifier::external_body]
pub(crate) fn new_version(major: u64, minor: u64, patch: u64) -> (v: Version)
    ensures
        version_parts(v) == (VersionParts {
            major,
            minor,
            patch,
            pre: Seq::<char>::empty(),
            build: Seq::<char>::empty(),
        }),
{
    Version::new(major, minor, patch)
}

/// The `Display` of a `Version`, through `to_string`: see `version_display`.
#[verifier::external_body]
pub(crate) fn version_to_string(v: &Version) -> (text: String)
    ensures
        text@ == version_display(version_parts(*v)),
{
    v.to_string()
}

/// The `Display` of a `VersionReq`, through `to_string`.
#[verifier::external_body]
pub(crate) fn version_req_to_string(req: &VersionReq) -> (text: String)
    ensures
        text@ == version_req_text(*req),
{
    req.to_string()
}

/// `Version::parse`: the version that the text stands for; `None` where
/// the call returns an error.
#[verifier::external_body]
pub(crate) fn parse_version(text: &str) -> (r: Option<Version>)
    ensures
        r == parsed_version(text@),
{
    Version::parse(text).ok()
}

/// `VersionReq::matches`.
#[verifier::external_body]
pub(crate) fn requirement_matches(req: &VersionReq, v: &Version) -> (b: bool)
    ensures
        b == req_matches(*req, *v),
{
    req.matches(v)
}

/// The operator `<` on two versions.
#[verifier::external_body]
pub(crate) fn version_is_below(a: &Version, b: &Version) -> (below: bool)
    ensures
        below == version_below(*a, *b),
{
    a < b
}

} // verus!
