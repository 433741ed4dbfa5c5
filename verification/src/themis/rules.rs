//! The rules, and the check of each: `Ok` where every package of the
//! workspace keeps the rule, else the list of those that do not.

use vstd::prelude::*;
use semver::Version;
use crate::themis::semver_specs::new_version;
use crate::themis::semver_specs::parse_version;
use crate::themis::semver_specs::parsed_version;
use crate::themis::semver_specs::req_matches;
use crate::themis::semver_specs::requirement_matches;
use crate::themis::semver_specs::version_below;
use crate::themis::semver_specs::version_build_is_empty;
use crate::themis::semver_specs::version_is_below;
use crate::themis::semver_specs::version_numbers;
use crate::themis::semver_specs::version_parts;
use crate::themis::semver_specs::VersionParts;
use crate::themis::semver_specs::version_pre_is_empty;
use crate::themis::semver_specs::version_req_text;
use crate::themis::semver_specs::version_req_to_string;
use crate::themis::semver_specs::version_display;
use crate::themis::semver_specs::version_to_string;
use crate::themis::text::decimal;
use crate::themis::text::decimal_string;
use crate::themis::types::expected_text;
use crate::themis::types::flagged;
use crate::themis::types::text_of;
use crate::themis::types::Error;
use crate::themis::types::Expected;
use crate::themis::types::Package;
use crate::themis::types::PackageOutcome;
use crate::themis::types::Rule;
use crate::themis::types::Workspace;

verus! {

/// Every package says whether it may be published.
pub open spec fn publish_rule() -> Rule {
    Rule {
        outlier: |p: Package| p.publish is None,
        value: |p: Package| None,
        msg: "These packages should have the `publish` specification"@,
        expected: Some(("publish = <true/false>"@, None)),
    }
}

/// Every package names the oldest toolchain it supports.
pub open spec fn rust_version_rule() -> Rule {
    Rule {
        outlier: |p: Package| p.rust_version is None,
        value: |p: Package| None,
        msg: "These packages should specify a Minimum Supported Rust Version (MSRV)"@,
        expected: None,
    }
}

/// A version is 0.0.0, with no pre-release tag and no build metadata.
pub open spec fn is_zero_version(v: Version) -> bool {
    let parts = version_parts(v);
    parts.major == 0 && parts.minor == 0 && parts.patch == 0 && parts.pre.len() == 0
        && parts.build.len() == 0
}

/// Every package has the version 0.0.0.
pub open spec fn unversioned_rule() -> Rule {
    Rule {
        outlier: |p: Package| !is_zero_version(p.version),
        value: |p: Package| Some(version_display(version_parts(p.version))),
        msg: "These packages shouldn't be versioned"@,
        expected: Some(("0.0.0"@, None)),
    }
}

/// No package names an oldest toolchain that the toolchain `toolchain`
/// satisfies.
pub open spec fn debuggable_rule(toolchain: Version) -> Rule {
    Rule {
        outlier: |p: Package|
            match p.rust_version {
                Some(req) => req_matches(req, toolchain),
                None => false,
            },
        value: |p: Package|
            match p.rust_version {
                Some(req) => Some(version_req_text(req)),
                None => None,
            },
        msg: "These packages have an incompatible `rust-version`"@,
        expected: Some(
            (
                "<="@ + version_display(version_parts(toolchain)),
                Some("as defined in the `rust-toolchain`"@),
            ),
        ),
    }
}

/// How many of `members` are written in the edition `edition`.
pub open spec fn edition_count(members: Seq<Package>, edition: Seq<char>) -> nat {
    members.filter(|p: Package| p.edition@ == edition).len()
}

/// Every package is written in the edition `edition`, which `n` packages use.
pub open spec fn edition_rule(edition: Seq<char>, n: nat) -> Rule {
    Rule {
        outlier: |p: Package| p.edition@ != edition,
        value: |p: Package| Some(p.edition@),
        msg: "These packages have an unexpected rust-edition"@,
        expected: Some(
            (
                edition,
                Some("used by "@ + decimal(n) + " other packages in the workspace"@),
            ),
        ),
    }
}

/// The outcomes `outliers` list the outliers among the first `n` of
/// `members`, in order, each with its value.
spec fn listed<'a>(
    outliers: Seq<PackageOutcome<'a>>,
    members: Seq<Package>,
    n: int,
    rule: Rule,
) -> bool {
    &&& flagged(outliers) == members.take(n).filter(rule.outlier)
    &&& forall|i: int|
        0 <= i < outliers.len() ==> text_of((#[trigger] outliers[i]).value) == (rule.value)(
            *outliers[i].pkg,
        )
}

proof fn lemma_filter_step<A>(s: Seq<A>, pred: spec_fn(A) -> bool, i: int)
    requires
        0 <= i < s.len(),
    ensures
        s.take(i + 1).filter(pred) == if pred(s[i]) {
            s.take(i).filter(pred).push(s[i])
        } else {
            s.take(i).filter(pred)
        },
        s.take(0).filter(pred).len() == 0,
        s.take(s.len() as int) == s,
{
    reveal(Seq::filter);
    assert(s.take(i + 1).drop_last() =~= s.take(i));
    assert(s.take(s.len() as int) =~= s);
}

proof fn lemma_listed_start<'a>(members: Seq<Package>, rule: Rule)
    ensures
        listed(Seq::<PackageOutcome<'a>>::empty(), members, 0, rule),
{
    reveal(Seq::filter);
    assert(flagged(Seq::<PackageOutcome<'a>>::empty()) =~= members.take(0).filter(rule.outlier));
}

proof fn lemma_listed_step<'a>(
    before: Seq<PackageOutcome<'a>>,
    after: Seq<PackageOutcome<'a>>,
    members: Seq<Package>,
    i: int,
    rule: Rule,
)
    requires
        0 <= i < members.len(),
        listed(before, members, i, rule),
        if (rule.outlier)(members[i]) {
            after.len() == before.len() + 1 && after.take(before.len() as int) == before
                && *after.last().pkg == members[i] && text_of(after.last().value) == (rule.value)(
                members[i],
            )
        } else {
            after == before
        },
    ensures
        listed(after, members, i + 1, rule),
{
    lemma_filter_step(members, rule.outlier, i);
    if (rule.outlier)(members[i]) {
        assert forall|x: int| 0 <= x < before.len() implies after[x] == before[x] by {
            assert(after.take(before.len() as int)[x] == after[x]);
        }
        assert(flagged(after) =~= flagged(before).push(members[i]));
    }
}

/// Ends a check: `Ok` where nothing was listed, else the failure.
fn outcome<'a>(
    outliers: Vec<PackageOutcome<'a>>,
    msg: String,
    expected: Option<Expected>,
    Ghost(members): Ghost<Seq<Package>>,
    Ghost(rule): Ghost<Rule>,
) -> (r: Result<(), Error<'a>>)
    requires
        listed(outliers@, members, members.len() as int, rule),
        msg@ == rule.msg,
        expected_text(expected) == rule.expected,
    ensures
        rule.gives(members, r),
{
    proof {
        assert(members.take(members.len() as int) =~= members);
    }
    if outliers.len() > 0 {
        Err(Error::OutcomeError { msg, expected, outliers })
    } else {
        Ok(())
    }
}

/// ensure all crates have the `publish = <true/false>` specification
pub fn has_publish_spec<'a>(workspace: &'a Workspace) -> (r: Result<(), Error<'a>>)
    ensures
        publish_rule().gives(workspace.members@, r),
{
    let ghost rule = publish_rule();
    let mut outliers: Vec<PackageOutcome<'a>> = Vec::new();
    let mut i: usize = 0;
    proof {
        lemma_listed_start(workspace.members@, rule);
    }
    while i < workspace.members.len()
        invariant
            i <= workspace.members@.len(),
            rule == publish_rule(),
            listed(outliers@, workspace.members@, i as int, rule),
        decreases workspace.members@.len() - i,
    {
        let pkg: &'a Package = &workspace.members[i];
        let ghost before = outliers@;
        if pkg.publish.is_none() {
            outliers.push(PackageOutcome { pkg, value: None });
        }
        proof {
            assert(outliers@.take(before.len() as int) =~= before);
            lemma_listed_step(before, outliers@, workspace.members@, i as int, rule);
        }
        i += 1;
    }
    outcome(
        outliers,
        "These packages should have the `publish` specification".to_owned(),
        Some(Expected { value: "publish = <true/false>".to_owned(), reason: None }),
        Ghost(workspace.members@),
        Ghost(rule),
    )
}

/// The version 1.58.0: the first cargo that knows the field `rust-version`.
pub open spec fn is_first_cargo_with_rust_version(v: Version) -> bool {
    version_parts(v) == (VersionParts {
        major: 1,
        minor: 58,
        patch: 0,
        pre: Seq::<char>::empty(),
        build: Seq::<char>::empty(),
    })
}

/// What `has_rust_version` gives for a workspace with the packages
/// `members`, checked with the cargo of version `cargo_version`. A cargo
/// older than 1.58.0 does not know the field, and nothing is checked.
pub open spec fn rust_version_checked<'a>(
    members: Seq<Package>,
    cargo_version: Version,
    r: Result<(), Error<'a>>,
) -> bool {
    exists|oldest: Version| #[trigger]
        is_first_cargo_with_rust_version(oldest) && if version_below(cargo_version, oldest) {
            r is Ok
        } else {
            rust_version_rule().gives(members, r)
        }
}

/// ensure all crates specify a MSRV
pub fn has_rust_version<'a>(workspace: &'a Workspace, cargo_version: &Version) -> (r: Result<
    (),
    Error<'a>,
>)
    ensures
        rust_version_checked(workspace.members@, *cargo_version, r),
{
    let oldest: Version = new_version(1, 58, 0);
    if version_is_below(cargo_version, &oldest) {
        assert(is_first_cargo_with_rust_version(oldest));
        return Ok(());
    }
    let ghost rule = rust_version_rule();
    let mut outliers: Vec<PackageOutcome<'a>> = Vec::new();
    let mut i: usize = 0;
    proof {
        lemma_listed_start(workspace.members@, rule);
    }
    while i < workspace.members.len()
        invariant
            i <= workspace.members@.len(),
            rule == rust_version_rule(),
            listed(outliers@, workspace.members@, i as int, rule),
        decreases workspace.members@.len() - i,
    {
        let pkg: &'a Package = &workspace.members[i];
        let ghost before = outliers@;
        if pkg.rust_version.is_none() {
            outliers.push(PackageOutcome { pkg, value: None });
        }
        proof {
            assert(outliers@.take(before.len() as int) =~= before);
            lemma_listed_step(before, outliers@, workspace.members@, i as int, rule);
        }
        i += 1;
    }
    let r = outcome(
        outliers,
        "These packages should specify a Minimum Supported Rust Version (MSRV)".to_owned(),
        None,
        Ghost(workspace.members@),
        Ghost(rule),
    );
    assert(is_first_cargo_with_rust_version(oldest));
    r
}

/// ensure all crates are versioned to v0.0.0
pub fn is_unversioned<'a>(workspace: &'a Workspace) -> (r: Result<(), Error<'a>>)
    ensures
        unversioned_rule().gives(workspace.members@, r),
{
    let ghost rule = unversioned_rule();
    let mut outliers: Vec<PackageOutcome<'a>> = Vec::new();
    let mut i: usize = 0;
    proof {
        lemma_listed_start(workspace.members@, rule);
    }
    while i < workspace.members.len()
        invariant
            i <= workspace.members@.len(),
            rule == unversioned_rule(),
            listed(outliers@, workspace.members@, i as int, rule),
        decreases workspace.members@.len() - i,
    {
        let pkg: &'a Package = &workspace.members[i];
        let ghost before = outliers@;
        let numbers = version_numbers(&pkg.version);
        let zero: bool = numbers.0 == 0 && numbers.1 == 0 && numbers.2 == 0 && version_pre_is_empty(
            &pkg.version,
        ) && version_build_is_empty(&pkg.version);
        if !zero {
            outliers.push(PackageOutcome { pkg, value: Some(version_to_string(&pkg.version)) });
        }
        proof {
            assert(outliers@.take(before.len() as int) =~= before);
            lemma_listed_step(before, outliers@, workspace.members@, i as int, rule);
        }
        i += 1;
    }
    outcome(
        outliers,
        "These packages shouldn't be versioned".to_owned(),
        Some(Expected { value: "0.0.0".to_owned(), reason: None }),
        Ghost(workspace.members@),
        Ghost(rule),
    )
}

/// What `has_debuggable_rust_version` gives for a workspace with the
/// packages `members` and the toolchain channel `channel`. A channel that
/// is no version, such as `stable`, cannot be compared, and nothing is
/// checked.
pub open spec fn debuggable_checked<'a>(
    members: Seq<Package>,
    channel: Seq<char>,
    r: Result<(), Error<'a>>,
) -> bool {
    match parsed_version(channel) {
        Some(toolchain) => debuggable_rule(toolchain).gives(members, r),
        None => r is Ok,
    }
}

/// lists the crates whose rust-version the toolchain of the channel
/// `rust_toolchain` satisfies: no crate may name one
pub fn has_debuggable_rust_version<'a>(workspace: &'a Workspace, rust_toolchain: &str) -> (r:
    Result<(), Error<'a>>)
    ensures
        debuggable_checked(workspace.members@, rust_toolchain@, r),
{
    let toolchain: Version = match parse_version(rust_toolchain) {
        Some(toolchain) => toolchain,
        None => {
            return Ok(());
        },
    };
    let ghost rule = debuggable_rule(toolchain);
    let mut outliers: Vec<PackageOutcome<'a>> = Vec::new();
    let mut i: usize = 0;
    proof {
        lemma_listed_start(workspace.members@, rule);
    }
    while i < workspace.members.len()
        invariant
            i <= workspace.members@.len(),
            rule == debuggable_rule(toolchain),
            listed(outliers@, workspace.members@, i as int, rule),
        decreases workspace.members@.len() - i,
    {
        let pkg: &'a Package = &workspace.members[i];
        let ghost before = outliers@;
        match &pkg.rust_version {
            Some(req) => {
                if requirement_matches(req, &toolchain) {
                    outliers.push(PackageOutcome { pkg, value: Some(version_req_to_string(req)) });
                }
            },
            None => {},
        }
        proof {
            assert(outliers@.take(before.len() as int) =~= before);
            lemma_listed_step(before, outliers@, workspace.members@, i as int, rule);
        }
        i += 1;
    }
    let value: String = "<=".to_owned().concat(version_to_string(&toolchain).as_str());
    outcome(
        outliers,
        "These packages have an incompatible `rust-version`".to_owned(),
        Some(Expected { value, reason: Some("as defined in the `rust-toolchain`".to_owned()) }),
        Ghost(workspace.members@),
        Ghost(rule),
    )
}

/// How many of `members` are written in the edition `edition`.
fn count_edition(members: &Vec<Package>, edition: &String) -> (n: usize)
    ensures
        n == edition_count(members@, edition@),
{
    let ghost same = |p: Package| p.edition@ == edition@;
    let mut n: usize = 0;
    let mut i: usize = 0;
    proof {
        reveal(Seq::filter);
    }
    while i < members.len()
        invariant
            i <= members@.len(),
            n <= i,
            same == (|p: Package| p.edition@ == edition@),
            n == members@.take(i as int).filter(same).len(),
        decreases members@.len() - i,
    {
        proof {
            lemma_filter_step(members@, same, i as int);
        }
        if members[i].edition == *edition {
            n += 1;
        }
        i += 1;
    }
    proof {
        assert(members@.take(members@.len() as int) =~= members@);
    }
    n
}

/// What `has_unified_rust_edition` gives for a workspace with the packages
/// `members`: the result of checking that all are written in the edition
/// that most of them use. Where several editions are used equally often,
/// any of them may be the one that is asked for.
pub open spec fn edition_checked<'a>(members: Seq<Package>, r: Result<(), Error<'a>>) -> bool {
    exists|c: int|
        0 <= c < members.len() && (forall|j: int|
            0 <= j < members.len() ==> edition_count(members, (#[trigger] members[j]).edition@)
                <= edition_count(members, members[c].edition@)) && edition_rule(
            members[c].edition@,
            edition_count(members, members[c].edition@),
        ).gives(members, r)
}

/// ensure all crates are written in the edition that most of them use
pub fn has_unified_rust_edition<'a>(workspace: &'a Workspace) -> (r: Result<(), Error<'a>>)
    requires
        workspace.members@.len() > 0,
    ensures
        edition_checked(workspace.members@, r),
{
    let members = &workspace.members;
    let mut best: usize = 0;
    let mut n_compliant: usize = count_edition(members, &members[0].edition);
    let mut c: usize = 1;
    while c < members.len()
        invariant
            1 <= c <= members@.len(),
            best < c,
            n_compliant == edition_count(members@, members@[best as int].edition@),
            forall|j: int|
                0 <= j < c ==> edition_count(members@, (#[trigger] members@[j]).edition@)
                    <= n_compliant,
        decreases members@.len() - c,
    {
        let n: usize = count_edition(members, &members[c].edition);
        if n > n_compliant {
            best = c;
            n_compliant = n;
        }
        c += 1;
    }
    let most_common_edition: &String = &members[best].edition;
    let ghost rule = edition_rule(most_common_edition@, n_compliant as nat);
    let mut outliers: Vec<PackageOutcome<'a>> = Vec::new();
    let mut i: usize = 0;
    proof {
        lemma_listed_start(workspace.members@, rule);
    }
    while i < workspace.members.len()
        invariant
            i <= workspace.members@.len(),
            rule == edition_rule(most_common_edition@, n_compliant as nat),
            listed(outliers@, workspace.members@, i as int, rule),
        decreases workspace.members@.len() - i,
    {
        let pkg: &'a Package = &workspace.members[i];
        let ghost before = outliers@;
        if pkg.edition != *most_common_edition {
            outliers.push(PackageOutcome { pkg, value: Some(pkg.edition.clone()) });
        }
        proof {
            assert(outliers@.take(before.len() as int) =~= before);
            lemma_listed_step(before, outliers@, workspace.members@, i as int, rule);
        }
        i += 1;
    }
    let reason: String = "used by ".to_owned().concat(
        decimal_string(n_compliant as u64).as_str(),
    ).concat(" other packages in the workspace");
    outcome(
        outliers,
        "These packages have an unexpected rust-edition".to_owned(),
        Some(Expected { value: most_common_edition.clone(), reason: Some(reason) }),
        Ghost(workspace.members@),
        Ghost(rule),
    )
}

} // verus!
