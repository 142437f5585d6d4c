//! Checking an ecosystem: dual-spec, version consistency, path validity.

use vstd::prelude::*;
use vstd::string::*;

use crate::discover;
use crate::discover::{DepModel, Ecosystem, InternalDep};
use crate::path;
use crate::publish;
use crate::text;
use crate::version;

verus! {

broadcast use text::lemma_texts_push;

// ── Versions ──

/// A dependency whose requirement does not admit the version that is there.
pub struct Mismatch {
    pub from_crate: String,
    pub to_crate: String,
    pub required: String,
    pub actual: String,
}

/// What a `Mismatch` says.
#[verifier::ext_equal]
pub struct MismatchModel {
    pub from_crate: Seq<char>,
    pub to_crate: Seq<char>,
    pub required: Seq<char>,
    pub actual: Seq<char>,
}

pub open spec fn mismatch_models(v: Seq<Mismatch>) -> Seq<MismatchModel> {
    v.map_values(
        |m: Mismatch|
            MismatchModel {
                from_crate: m.from_crate@,
                to_crate: m.to_crate@,
                required: m.required@,
                actual: m.actual@,
            },
    )
}

/// What is wrong with the version that a dependency requires of a known crate; nothing where
/// one of the two texts cannot be read.
pub open spec fn mismatch_of(dep: DepModel, eco: Ecosystem) -> Option<MismatchModel> {
    if dep.version_value is Some && eco.crates.has(dep.to_crate) && version::admitted(
        dep.version_value.unwrap(),
        eco.crates@[dep.to_crate].version@,
    ) == Some(false) {
        Some(
            MismatchModel {
                from_crate: dep.from_crate,
                to_crate: dep.to_crate,
                required: dep.version_value.unwrap(),
                actual: eco.crates@[dep.to_crate].version@,
            },
        )
    } else {
        None
    }
}

/// The mismatches among the dependencies of a list.
pub open spec fn mismatches(deps: Seq<DepModel>, eco: Ecosystem) -> Seq<MismatchModel>
    decreases deps.len(),
{
    if deps.len() == 0 {
        Seq::empty()
    } else {
        let before = mismatches(deps.drop_last(), eco);
        match mismatch_of(deps.last(), eco) {
            Some(m) => before.push(m),
            None => before,
        }
    }
}

/// Find the dependencies whose requirement does not admit the version that is there.
pub fn version_mismatches(eco: &Ecosystem) -> (r: Vec<Mismatch>)
    ensures
        mismatch_models(r@) == mismatches(discover::dep_models(eco.deps@), *eco),
{
    let ghost ds = discover::dep_models(eco.deps@);
    let mut out: Vec<Mismatch> = Vec::new();
    let mut i: usize = 0;
    assert(ds.take(0) =~= Seq::<DepModel>::empty());
    assert(mismatch_models(out@) =~= Seq::<MismatchModel>::empty());
    while i < eco.deps.len()
        invariant
            i <= eco.deps.len(),
            ds == discover::dep_models(eco.deps@),
            mismatch_models(out@) == mismatches(ds.take(i as int), *eco),
        decreases eco.deps.len() - i,
    {
        assert(ds.take(i + 1).drop_last() =~= ds.take(i as int));
        assert(ds.take(i + 1).last() == eco.deps@[i as int]@);
        let dep = &eco.deps[i];
        if let Some(required) = &dep.version_value {
            if let Some(info) = eco.crates.get(dep.to_crate.as_str()) {
                match version::requirement_admits(required.as_str(), info.version.as_str()) {
                    Some(false) => {
                        let ghost sofar = mismatch_models(out@);
                        let ghost m = mismatch_of(ds[i as int], *eco).unwrap();
                        out.push(
                            Mismatch {
                                from_crate: dep.from_crate.clone(),
                                to_crate: dep.to_crate.clone(),
                                required: required.clone(),
                                actual: info.version.clone(),
                            },
                        );
                        assert(mismatch_models(out@) =~= sofar.push(m));
                    },
                    _ => {},
                }
            }
        }
        i += 1;
    }
    assert(ds.take(i as int) =~= ds);
    out
}

// ── Dual specification ──

/// Whether a path-only dependency keeps a publishable crate from being published.
pub open spec fn is_dual_error(dep: DepModel, eco: Ecosystem) -> bool {
    publish::is_publishable(eco, dep.from_crate) && publish::is_publishable(eco, dep.to_crate)
        && dep.has_path && !dep.has_version
}

/// Whether a path-only dependency is on a crate that is not published.
pub open spec fn is_noted(dep: DepModel, eco: Ecosystem) -> bool {
    dep.has_path && !dep.has_version && !publish::is_publishable(eco, dep.to_crate)
}

/// The message for a path-only dependency that needs a version.
pub open spec fn dual_message(dep: DepModel) -> Seq<char> {
    dep.from_crate + " -> "@ + dep.to_crate + " ("@ + dep.section.label()
        + "): path-only, needs version for publish"@
}

/// The messages for the dependencies of a list that need a version.
pub open spec fn dual_errors(deps: Seq<DepModel>, eco: Ecosystem) -> Seq<Seq<char>>
    decreases deps.len(),
{
    if deps.len() == 0 {
        Seq::empty()
    } else if is_dual_error(deps.last(), eco) {
        dual_errors(deps.drop_last(), eco).push(dual_message(deps.last()))
    } else {
        dual_errors(deps.drop_last(), eco)
    }
}

/// How many dependencies of a list are path-only on crates that are not published.
pub open spec fn noted(deps: Seq<DepModel>, eco: Ecosystem) -> nat
    decreases deps.len(),
{
    if deps.len() == 0 {
        0
    } else if is_noted(deps.last(), eco) {
        noted(deps.drop_last(), eco) + 1
    } else {
        noted(deps.drop_last(), eco)
    }
}

// ── Paths ──

/// Where the manifest of the crate that a path leads to lies.
pub open spec fn manifest_at(dep: DepModel) -> Option<Seq<char>> {
    match dep.path_value {
        Some(p) => match path::parent(dep.manifest_path) {
            Some(dir) => Some(path::joined(path::joined(dir, p), "Cargo.toml"@)),
            None => None,
        },
        None => None,
    }
}

/// Where the manifest of the crate that a dependency's path leads to lies.
pub fn expected_manifest(dep: &InternalDep) -> (r: Option<String>)
    ensures
        text::opt(r) == manifest_at(dep@),
{
    match &dep.path_value {
        Some(p) => match path::parent_of(dep.manifest_path.as_str()) {
            Some(dir) => {
                let resolved = path::join_path(dir.as_str(), p.as_str());
                Some(path::join_path(resolved.as_str(), "Cargo.toml"))
            },
            None => None,
        },
        None => None,
    }
}

/// The message for a path that leads nowhere.
pub open spec fn path_message(dep: DepModel) -> Seq<char> {
    dep.from_crate + " -> "@ + dep.to_crate + ": path \""@ + dep.path_value.unwrap()
        + "\" does not exist (from "@ + dep.manifest_path + ")"@
}

/// The messages for the first `n` dependencies whose path leads nowhere, given whether there is
/// a manifest where it leads.
pub open spec fn path_errors(deps: Seq<DepModel>, present: Seq<bool>, n: nat) -> Seq<Seq<char>>
    decreases n,
{
    if n == 0 {
        Seq::empty()
    } else {
        let before = path_errors(deps, present, (n - 1) as nat);
        if deps[n - 1].path_value is Some && !present[n - 1] {
            before.push(path_message(deps[n - 1]))
        } else {
            before
        }
    }
}

// ── Unknown crates ──

/// The message for a dependency on a crate that is not known.
pub open spec fn unknown_message(dep: DepModel) -> Seq<char> {
    dep.from_crate + " -> "@ + dep.to_crate + ": not found in ecosystem registry"@
}

/// The messages for the dependencies of a list on crates that are not known.
pub open spec fn unknown_refs(deps: Seq<DepModel>, eco: Ecosystem) -> Seq<Seq<char>>
    decreases deps.len(),
{
    if deps.len() == 0 {
        Seq::empty()
    } else if !eco.crates.has(deps.last().to_crate) {
        unknown_refs(deps.drop_last(), eco).push(unknown_message(deps.last()))
    } else {
        unknown_refs(deps.drop_last(), eco)
    }
}

// ── The report ──

/// What a check found.
pub struct CheckReport {
    pub dual_errors: Vec<String>,
    pub mismatches: Vec<Mismatch>,
    pub path_errors: Vec<String>,
    pub unknown: Vec<String>,
    /// How many path-only dependencies are on crates that are not published.
    pub noted: usize,
}

impl CheckReport {
    pub open spec fn errors(self) -> nat {
        self.dual_errors@.len() + self.mismatches@.len() + self.path_errors@.len()
    }

    pub open spec fn warnings(self) -> nat {
        self.noted as nat + self.unknown@.len()
    }

    pub fn error_count(&self) -> (r: u128)
        ensures
            r == self.errors(),
    {
        self.dual_errors.len() as u128 + self.mismatches.len() as u128 + self.path_errors.len()
            as u128
    }

    pub fn warning_count(&self) -> (r: u128)
        ensures
            r == self.warnings(),
    {
        self.noted as u128 + self.unknown.len() as u128
    }

    /// Whether the check passes; the message counts the errors where it does not.
    pub fn verdict(&self) -> (r: Result<(), String>)
        ensures
            self.errors() == 0 ==> r is Ok,
            self.errors() > 0 ==> r is Err && r->Err_0@ == text::decimal(self.errors())
                + " errors found"@,
    {
        let errors: u128 = self.error_count();
        if errors > 0 {
            let n = text::wide_decimal_of(errors);
            Err(text::cat2(n.as_str(), " errors found"))
        } else {
            Ok(())
        }
    }
}

fn write_dual_message(dep: &InternalDep) -> (r: String)
    ensures
        r@ == dual_message(dep@),
{
    let mut out = text::cat4(dep.from_crate.as_str(), " -> ", dep.to_crate.as_str(), " (");
    out.append(dep.section.name());
    out.append("): path-only, needs version for publish");
    out
}

fn write_path_message(dep: &InternalDep, p: &str) -> (r: String)
    requires
        dep@.path_value == Some(p@),
    ensures
        r@ == path_message(dep@),
{
    let mut out = text::cat4(dep.from_crate.as_str(), " -> ", dep.to_crate.as_str(), ": path \"");
    out.append(p);
    out.append("\" does not exist (from ");
    out.append(dep.manifest_path.as_str());
    out.append(")");
    out
}

/// Check an ecosystem, given for each dependency whether there is a manifest where its path
/// leads.
pub fn check_ecosystem(eco: &Ecosystem, present: &Vec<bool>) -> (r: CheckReport)
    requires
        present@.len() == eco.deps@.len(),
    ensures
        text::texts(r.dual_errors@) == dual_errors(discover::dep_models(eco.deps@), *eco),
        mismatch_models(r.mismatches@) == mismatches(discover::dep_models(eco.deps@), *eco),
        text::texts(r.path_errors@) == path_errors(
            discover::dep_models(eco.deps@),
            present@,
            eco.deps@.len(),
        ),
        text::texts(r.unknown@) == unknown_refs(discover::dep_models(eco.deps@), *eco),
        r.noted == noted(discover::dep_models(eco.deps@), *eco),
{
    let ghost ds = discover::dep_models(eco.deps@);
    let mut dual: Vec<String> = Vec::new();
    let mut lost: Vec<String> = Vec::new();
    let mut unknown: Vec<String> = Vec::new();
    let mut notes: usize = 0;
    let mut i: usize = 0;
    assert(ds.take(0) =~= Seq::<DepModel>::empty());
    assert(text::texts(dual@) =~= Seq::<Seq<char>>::empty());
    while i < eco.deps.len()
        invariant
            i <= eco.deps.len(),
            present@.len() == eco.deps@.len(),
            ds == discover::dep_models(eco.deps@),
            notes <= i,
            text::texts(dual@) == dual_errors(ds.take(i as int), *eco),
            text::texts(lost@) == path_errors(ds, present@, i as nat),
            text::texts(unknown@) == unknown_refs(ds.take(i as int), *eco),
            notes == noted(ds.take(i as int), *eco),
        decreases eco.deps.len() - i,
    {
        assert(ds.take(i + 1).drop_last() =~= ds.take(i as int));
        assert(ds.take(i + 1).last() == eco.deps@[i as int]@);
        let dep = &eco.deps[i];
        let to_publishable = publish::publishable(eco, dep.to_crate.as_str());
        if dep.has_path && !dep.has_version {
            if to_publishable {
                if publish::publishable(eco, dep.from_crate.as_str()) {
                    dual.push(write_dual_message(dep));
                }
            } else {
                notes += 1;
            }
        }
        if let Some(p) = &dep.path_value {
            if !present[i] {
                lost.push(write_path_message(dep, p.as_str()));
            }
        }
        if !eco.crates.contains_key(dep.to_crate.as_str()) {
            unknown.push(
                text::cat4(
                    dep.from_crate.as_str(),
                    " -> ",
                    dep.to_crate.as_str(),
                    ": not found in ecosystem registry",
                ),
            );
        }
        i += 1;
    }
    assert(ds.take(i as int) =~= ds);
    CheckReport {
        dual_errors: dual,
        mismatches: version_mismatches(eco),
        path_errors: lost,
        unknown,
        noted: notes,
    }
}

/// A check reports as many path-only dependencies that need a version as block publishing.
pub proof fn law_dual_errors_are_blockers(eco: Ecosystem, n: nat)
    requires
        n <= eco.deps@.len(),
    ensures
        dual_errors(discover::dep_models(eco.deps@).take(n as int), eco).len()
            == publish::blockers_upto(eco, n).len(),
    decreases n,
{
    let ds = discover::dep_models(eco.deps@);
    if n > 0 {
        law_dual_errors_are_blockers(eco, (n - 1) as nat);
        assert(ds.take(n as int).drop_last() =~= ds.take(n - 1));
        assert(ds.take(n as int).last() == eco.deps@[n - 1]@);
    }
}

/// A check reports a version mismatch for each dependency that requires a readable version of a
/// known crate whose readable version does not match, and for no other.
pub proof fn law_mismatches_are_found(deps: Seq<DepModel>, eco: Ecosystem)
    ensures
        mismatches(deps, eco) == deps.filter(
            |d: DepModel|
                d.version_value is Some && eco.crates.has(d.to_crate) && version::is_requirement(
                    d.version_value.unwrap(),
                ) && version::parsed_version(eco.crates@[d.to_crate].version@) is Ok
                    && !version::requirement_matches(
                    d.version_value.unwrap(),
                    eco.crates@[d.to_crate].version@,
                ),
        ).map_values(
            |d: DepModel|
                MismatchModel {
                    from_crate: d.from_crate,
                    to_crate: d.to_crate,
                    required: d.version_value.unwrap(),
                    actual: eco.crates@[d.to_crate].version@,
                },
        ),
    decreases deps.len(),
{
    reveal(Seq::filter);
    if deps.len() > 0 {
        law_mismatches_are_found(deps.drop_last(), eco);
    }
}

/// A check reports each dependency of a publishable crate on a publishable crate that has a path
/// and no version, in whichever section, and no other.
pub proof fn law_dual_errors_are_found(deps: Seq<DepModel>, eco: Ecosystem)
    ensures
        dual_errors(deps, eco) == deps.filter(
            |d: DepModel|
                eco.crates.has(d.from_crate) && eco.crates@[d.from_crate].publishable
                    && eco.crates.has(d.to_crate) && eco.crates@[d.to_crate].publishable
                    && d.has_path && !d.has_version,
        ).map_values(
            |d: DepModel|
                d.from_crate + " -> "@ + d.to_crate + " ("@ + d.section.label()
                    + "): path-only, needs version for publish"@,
        ),
    decreases deps.len(),
{
    reveal(Seq::filter);
    if deps.len() > 0 {
        law_dual_errors_are_found(deps.drop_last(), eco);
    }
}

/// A check notes each dependency with a path and no version on a crate that is not published.
pub proof fn law_notes_are_counted(deps: Seq<DepModel>, eco: Ecosystem)
    ensures
        noted(deps, eco) == deps.filter(
            |d: DepModel|
                d.has_path && !d.has_version && !(eco.crates.has(d.to_crate)
                    && eco.crates@[d.to_crate].publishable),
        ).len(),
    decreases deps.len(),
{
    reveal(Seq::filter);
    if deps.len() > 0 {
        law_notes_are_counted(deps.drop_last(), eco);
    }
}

/// A check warns of each dependency on a crate that is not known.
pub proof fn law_unknown_crates_are_reported(deps: Seq<DepModel>, eco: Ecosystem)
    ensures
        unknown_refs(deps, eco) == deps.filter(
            |d: DepModel| !eco.crates.has(d.to_crate),
        ).map_values(
            |d: DepModel|
                d.from_crate + " -> "@ + d.to_crate + ": not found in ecosystem registry"@,
        ),
    decreases deps.len(),
{
    reveal(Seq::filter);
    if deps.len() > 0 {
        law_unknown_crates_are_reported(deps.drop_last(), eco);
    }
}

/// A check reports each dependency whose path leads to no manifest.
pub proof fn law_dead_paths_are_reported(deps: Seq<DepModel>, present: Seq<bool>, n: nat)
    ensures
        path_errors(deps, present, n) == Seq::new(n, |i: int| i).filter(
            |i: int| deps[i].path_value is Some && !present[i],
        ).map_values(
            |i: int|
                deps[i].from_crate + " -> "@ + deps[i].to_crate + ": path \""@
                    + deps[i].path_value.unwrap() + "\" does not exist (from "@
                    + deps[i].manifest_path + ")"@,
        ),
    decreases n,
{
    reveal(Seq::filter);
    let all = Seq::new(n, |i: int| i);
    if n > 0 {
        law_dead_paths_are_reported(deps, present, (n - 1) as nat);
        assert(all.drop_last() =~= Seq::new((n - 1) as nat, |i: int| i));
        assert(all.last() == n - 1);
    } else {
        assert(all =~= Seq::<int>::empty());
    }
}

/// Every reported dependency without a version, every version mismatch and every dead path fails
/// the check; notes and unknown crates do not.
pub proof fn law_every_error_fails(report: CheckReport)
    ensures
        report.errors() == 0 <==> report.dual_errors@.len() == 0 && report.mismatches@.len() == 0
            && report.path_errors@.len() == 0,
        report.errors() >= report.dual_errors@.len(),
        report.errors() - report.dual_errors@.len() - report.mismatches@.len()
            == report.path_errors@.len(),
        report.warnings() - report.noted == report.unknown@.len(),
{
}

} // verus!
