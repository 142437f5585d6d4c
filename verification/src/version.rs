//! Version numbers and requirements.

use vstd::prelude::*;
use vstd::string::*;

use crate::text;

verus! {

/// The major, minor and patch number that a version text reads as, or the reader's complaint.
pub uninterp spec fn parsed_version(version: Seq<char>) -> Result<(nat, nat, nat), Seq<char>>;

/// Whether a text reads as a requirement.
pub uninterp spec fn is_requirement(requirement: Seq<char>) -> bool;

/// Whether a requirement matches a version, where both texts are what they should be.
pub uninterp spec fn requirement_matches(requirement: Seq<char>, version: Seq<char>) -> bool;

/// Whether a requirement admits a version, or nothing where one of the texts is unreadable.
pub open spec fn admitted(requirement: Seq<char>, version: Seq<char>) -> Option<bool> {
    if is_requirement(requirement) && parsed_version(version) is Ok {
        Some(requirement_matches(requirement, version))
    } else {
        None
    }
}

/// `semver::Version::parse`: the numbers of the version, or the error's text; both are named by
/// `parsed_version`.
#[verifier::external_body]
fn read_version(version: &str) -> (r: Result<(u64, u64, u64), String>)
    ensures
        match r {
            Ok(v) => parsed_version(version@) == Ok::<(nat, nat, nat), Seq<char>>(
                (v.0 as nat, v.1 as nat, v.2 as nat),
            ),
            Err(e) => parsed_version(version@) == Err::<(nat, nat, nat), Seq<char>>(e@),
        },
{
    semver::Version::parse(version).map(|v| (v.major, v.minor, v.patch)).map_err(|e| e.to_string())
}

/// `semver::VersionReq::parse`: whether the text is a requirement, named by `is_requirement`.
#[verifier::external_body]
fn reads_as_requirement(requirement: &str) -> (r: bool)
    ensures
        r == is_requirement(requirement@),
{
    semver::VersionReq::parse(requirement).is_ok()
}

/// `semver::VersionReq::matches` on what the two texts read as: whether the requirement matches the
/// version, named by `requirement_matches`. A text that does not read would make it panic.
#[verifier::external_body]
fn matches_version(requirement: &str, version: &str) -> (r: bool)
    requires
        is_requirement(requirement@),
        parsed_version(version@) is Ok,
    ensures
        r == requirement_matches(requirement@, version@),
{
    let requirement = semver::VersionReq::parse(requirement).unwrap();
    requirement.matches(&semver::Version::parse(version).unwrap())
}

/// Whether a requirement admits a version, or nothing where one of the texts is unreadable.
pub fn requirement_admits(requirement: &str, version: &str) -> (r: Option<bool>)
    ensures
        r == admitted(requirement@, version@),
{
    if reads_as_requirement(requirement) && read_version(version).is_ok() {
        Some(matches_version(requirement, version))
    } else {
        None
    }
}

/// The message for a text that is no version.
pub open spec fn invalid_message(version: Seq<char>, complaint: Seq<char>) -> Seq<char> {
    "invalid version '"@ + version + "': "@ + complaint
}

/// Check that a text is a version.
pub fn validate_version(version: &str) -> (r: Result<(), String>)
    ensures
        match parsed_version(version@) {
            Ok(_) => r is Ok,
            Err(e) => r is Err && r->Err_0@ == invalid_message(version@, e),
        },
{
    match read_version(version) {
        Ok(_) => Ok(()),
        Err(e) => Err(text::cat4("invalid version '", version, "': ", e.as_str())),
    }
}

/// Which number of a version goes up.
#[derive(Debug, Clone, Copy, PartialEq, Eq, Structural)]
pub enum BumpLevel {
    Major,
    Minor,
    Patch,
}

impl BumpLevel {
    /// The level that a text writes down.
    pub open spec fn named(s: Seq<char>) -> Option<BumpLevel> {
        if s == "major"@ {
            Some(BumpLevel::Major)
        } else if s == "minor"@ {
            Some(BumpLevel::Minor)
        } else if s == "patch"@ {
            Some(BumpLevel::Patch)
        } else {
            None
        }
    }

    /// The level that a text writes down.
    pub fn parse(s: &str) -> (r: Option<BumpLevel>)
        ensures
            r == BumpLevel::named(s@),
    {
        if text::same(s, "major") {
            Some(BumpLevel::Major)
        } else if text::same(s, "minor") {
            Some(BumpLevel::Minor)
        } else if text::same(s, "patch") {
            Some(BumpLevel::Patch)
        } else {
            None
        }
    }
}

/// The numbers of the next version at a level.
pub open spec fn bumped(v: (nat, nat, nat), level: BumpLevel) -> (nat, nat, nat) {
    match level {
        BumpLevel::Major => (v.0 + 1, 0, 0),
        BumpLevel::Minor => (v.0, v.1 + 1, 0),
        BumpLevel::Patch => (v.0, v.1, v.2 + 1),
    }
}

/// A version written down.
pub open spec fn dotted(v: (nat, nat, nat)) -> Seq<char> {
    text::decimal(v.0) + "."@ + text::decimal(v.1) + "."@ + text::decimal(v.2)
}

/// Whether the number that goes up can go up.
pub open spec fn has_room(v: (nat, nat, nat), level: BumpLevel) -> bool {
    match level {
        BumpLevel::Major => v.0 < u64::MAX,
        BumpLevel::Minor => v.1 < u64::MAX,
        BumpLevel::Patch => v.2 < u64::MAX,
    }
}

fn write_dotted(major: u64, minor: u64, patch: u64) -> (r: String)
    ensures
        r@ == dotted((major as nat, minor as nat, patch as nat)),
{
    let mut out = text::decimal_of(major);
    out.append(".");
    let minor = text::decimal_of(minor);
    out.append(minor.as_str());
    out.append(".");
    let patch = text::decimal_of(patch);
    out.append(patch.as_str());
    out
}

/// The next version at a level; nothing where the number is at its limit.
pub fn next_version(major: u64, minor: u64, patch: u64, level: BumpLevel) -> (r: Option<String>)
    ensures
        r is Some == has_room((major as nat, minor as nat, patch as nat), level),
        r is Some ==> r.unwrap()@ == dotted(
            bumped((major as nat, minor as nat, patch as nat), level),
        ),
{
    match level {
        BumpLevel::Major => if major < u64::MAX {
            Some(write_dotted(major + 1, 0, 0))
        } else {
            None
        },
        BumpLevel::Minor => if minor < u64::MAX {
            Some(write_dotted(major, minor + 1, 0))
        } else {
            None
        },
        BumpLevel::Patch => if patch < u64::MAX {
            Some(write_dotted(major, minor, patch + 1))
        } else {
            None
        },
    }
}

/// The message for a crate whose version cannot be read.
pub open spec fn bad_version_message(
    name: Seq<char>,
    version: Seq<char>,
    complaint: Seq<char>,
) -> Seq<char> {
    name + ": bad version '"@ + version + "': "@ + complaint
}

/// The message for a level that there is not.
pub open spec fn bad_level_message(name: Seq<char>, bump: Seq<char>) -> Seq<char> {
    name + ": invalid bump level '"@ + bump + "'"@
}

/// The version that a crate gets by a bump; nothing where the number is at its limit.
pub fn bump_version(name: &str, version: &str, bump: &str) -> (r: Result<Option<String>, String>)
    ensures
        match parsed_version(version@) {
            Err(e) => r is Err && r->Err_0@ == bad_version_message(name@, version@, e),
            Ok(v) => match BumpLevel::named(bump@) {
                None => r is Err && r->Err_0@ == bad_level_message(name@, bump@),
                Some(level) => r is Ok && r->Ok_0 is Some == has_room(v, level) && (r->Ok_0 is Some
                    ==> r->Ok_0.unwrap()@ == dotted(bumped(v, level))),
            },
        },
{
    let v = match read_version(version) {
        Ok(v) => v,
        Err(e) => {
            let mut message = text::cat4(name, ": bad version '", version, "': ");
            message.append(e.as_str());
            return Err(message);
        },
    };
    match BumpLevel::parse(bump) {
        None => Err(text::cat4(name, ": invalid bump level '", bump, "'")),
        Some(level) => Ok(next_version(v.0, v.1, v.2, level)),
    }
}

/// Whether one version comes after another.
pub open spec fn comes_after(a: (nat, nat, nat), b: (nat, nat, nat)) -> bool {
    a.0 > b.0 || (a.0 == b.0 && (a.1 > b.1 || (a.1 == b.1 && a.2 > b.2)))
}

/// A bump always leads to a later version.
pub proof fn law_bump_goes_up(v: (nat, nat, nat), level: BumpLevel)
    ensures
        comes_after(bumped(v, level), v),
{
}

/// A bump raises the number of its level by one, keeps those before it, and sets those behind it to
/// zero.
pub proof fn law_bump_levels(major: nat, minor: nat, patch: nat)
    ensures
        bumped((major, minor, patch), BumpLevel::Major) == (major + 1, 0nat, 0nat),
        bumped((major, minor, patch), BumpLevel::Minor) == (major, minor + 1, 0nat),
        bumped((major, minor, patch), BumpLevel::Patch) == (major, minor, patch + 1),
        dotted((major, minor, patch)) == text::decimal(major) + "."@ + text::decimal(minor) + "."@
            + text::decimal(patch),
{
}

/// A bump is possible as long as the numbers that it leads to can be held.
pub proof fn law_room_for_a_bump(v: (nat, nat, nat), level: BumpLevel)
    requires
        v.0 <= u64::MAX,
        v.1 <= u64::MAX,
        v.2 <= u64::MAX,
    ensures
        has_room(v, level) <==> bumped(v, level).0 <= u64::MAX && bumped(v, level).1 <= u64::MAX
            && bumped(v, level).2 <= u64::MAX,
{
}

/// Each level is written down by its own word, and no other text writes one down.
pub proof fn law_level_words(s: Seq<char>)
    ensures
        BumpLevel::named(s) == Some(BumpLevel::Major) <==> s == "major"@,
        BumpLevel::named(s) == Some(BumpLevel::Minor) <==> s == "minor"@,
        BumpLevel::named(s) == Some(BumpLevel::Patch) <==> s == "patch"@,
{
    reveal_strlit("major");
    reveal_strlit("minor");
    reveal_strlit("patch");
    assert("major"@[1] == 'a' && "minor"@[1] == 'i' && "patch"@[0] == 'p' && "major"@[0] == 'm'
        && "minor"@[0] == 'm');
}

/// A requirement is judged only where both texts can be read, and then by whether it matches.
pub proof fn law_unreadable_is_not_judged(requirement: Seq<char>, version: Seq<char>)
    ensures
        admitted(requirement, version) is None <==> !is_requirement(requirement)
            || parsed_version(version) is Err,
        admitted(requirement, version) == Some(true) ==> requirement_matches(requirement, version),
        admitted(requirement, version) == Some(false) ==> !requirement_matches(
            requirement,
            version,
        ),
{
}

} // verus!
