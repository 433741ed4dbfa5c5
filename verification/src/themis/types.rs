//! A workspace and its packages, and what a check reports.

use vstd::prelude::*;
use semver::Version;
use semver::VersionReq;

verus! {

/// A package of the workspace, as cargo describes it.
#[derive(Debug)]
pub struct Package {
    pub name: String,
    pub version: Version,
    /// The registries that the package may be published to; `None` where
    /// the package does not say.
    pub publish: Option<Vec<String>>,
    /// The oldest toolchain that the package supports; `None` where the
    /// package does not say.
    pub rust_version: Option<VersionReq>,
    /// The edition of the language that the package is written in.
    pub edition: String,
}

/// A workspace: where it lies, and its packages.
#[derive(Debug)]
pub struct Workspace {
    pub root: String,
    pub members: Vec<Package>,
}

/// A package that does not keep a rule, with what was found in place of
/// what the rule asks for.
#[derive(Debug)]
pub struct PackageOutcome<'a> {
    pub pkg: &'a Package,
    pub value: Option<String>,
}

/// What a rule asks for, and why.
#[derive(Debug)]
pub struct Expected {
    pub value: String,
    pub reason: Option<String>,
}

/// Why a check failed.
#[derive(Debug)]
pub enum Error<'a> {
    /// Some packages do not keep the rule.
    OutcomeError { msg: String, expected: Option<Expected>, outliers: Vec<PackageOutcome<'a>> },
}

/// The packages of a list of outcomes, in order.
pub open spec fn flagged<'a>(outliers: Seq<PackageOutcome<'a>>) -> Seq<Package> {
    outliers.map_values(|o: PackageOutcome<'a>| *o.pkg)
}

/// The text of an optional string.
pub open spec fn text_of(value: Option<String>) -> Option<Seq<char>> {
    match value {
        Some(s) => Some(s@),
        None => None,
    }
}

/// What a rule asks for, as plain text: the value, and the reason if one is given.
pub open spec fn expected_text(expected: Option<Expected>) -> Option<(Seq<char>, Option<Seq<char>>)> {
    match expected {
        Some(e) => Some((e.value@, text_of(e.reason))),
        None => None,
    }
}

/// A rule of the form "no package is an outlier".
pub ghost struct Rule {
    /// Which packages do not keep the rule.
    pub outlier: spec_fn(Package) -> bool,
    /// What is reported as found for an outlier.
    pub value: spec_fn(Package) -> Option<Seq<char>>,
    /// The message of the failure.
    pub msg: Seq<char>,
    /// What is reported as asked for.
    pub expected: Option<(Seq<char>, Option<Seq<char>>)>,
}

impl Rule {
    /// `r` is the result of checking the rule on `members`: `Ok` where no
    /// package is an outlier; else the failure that lists the outliers, all
    /// of them, in their order in `members`, each with its value.
    pub open spec fn gives<'a>(self, members: Seq<Package>, r: Result<(), Error<'a>>) -> bool {
        match r {
            Ok(_) => members.filter(self.outlier).len() == 0,
            Err(Error::OutcomeError { msg, expected, outliers }) => {
                &&& members.filter(self.outlier).len() > 0
                &&& flagged(outliers@) == members.filter(self.outlier)
                &&& forall|i: int|
                    0 <= i < outliers@.len() ==> text_of((#[trigger] outliers@[i]).value) == (
                    self.value)(*outliers@[i].pkg)
                &&& msg@ == self.msg
                &&& expected_text(expected) == self.expected
            },
        }
    }
}

} // verus!
