//! Finding dependencies that will break once manifests are prepared for CI.

use vstd::prelude::*;
use vstd::string::*;

use crate::ci;
use crate::config::{CiCrateOverride, CiStrategy, SuperworkConfig};
use crate::discover;
use crate::discover::{CrateInfo, DepModel, DepSection, Ecosystem, InternalDep};
use crate::glob;
use crate::group;
use crate::path;
use crate::text;
use crate::text_map::TextMap;
use crate::version;

verus! {

broadcast use text::lemma_texts_push;

// ── Findings ──

#[derive(Debug, Clone, Copy, PartialEq, Eq, Structural)]
pub enum Severity {
    Pass,
    Info,
    Warn,
    Error,
}

impl Severity {
    /// How severe: the higher the worse.
    pub open spec fn level(self) -> usize {
        match self {
            Severity::Pass => 0,
            Severity::Info => 1,
            Severity::Warn => 2,
            Severity::Error => 3,
        }
    }

    pub fn rank(&self) -> (r: usize)
        ensures
            r == self.level(),
    {
        match self {
            Severity::Pass => 0,
            Severity::Info => 1,
            Severity::Warn => 2,
            Severity::Error => 3,
        }
    }

    pub open spec fn label(self) -> Seq<char> {
        match self {
            Severity::Pass => "PASS "@,
            Severity::Info => "INFO "@,
            Severity::Warn => "WARN "@,
            Severity::Error => "ERROR"@,
        }
    }

    /// The severity as it is shown.
    pub fn name(&self) -> (r: &'static str)
        ensures
            r@ == self.label(),
    {
        match self {
            Severity::Pass => "PASS ",
            Severity::Info => "INFO ",
            Severity::Warn => "WARN ",
            Severity::Error => "ERROR",
        }
    }
}

pub struct DepFinding {
    pub from_crate: String,
    /// Empty where the finding is about the repo as a whole.
    pub to_crate: String,
    pub section: DepSection,
    pub strategy: CiStrategy,
    pub severity: Severity,
    pub message: String,
}

/// What a `DepFinding` says.
#[verifier::ext_equal]
pub struct FindingModel {
    pub from_crate: Seq<char>,
    pub to_crate: Seq<char>,
    pub section: DepSection,
    pub strategy: CiStrategy,
    pub severity: Severity,
    pub message: Seq<char>,
}

impl DepFinding {
    pub open spec fn model(self) -> FindingModel {
        FindingModel {
            from_crate: self.from_crate@,
            to_crate: self.to_crate@,
            section: self.section,
            strategy: self.strategy,
            severity: self.severity,
            message: self.message@,
        }
    }
}

pub open spec fn finding_models(v: Seq<DepFinding>) -> Seq<FindingModel> {
    v.map_values(|f: DepFinding| f.model())
}

// ── Core decision tree ──

/// What becomes of a dependency whose path is stripped: its version has to be found on
/// crates.io, or, where that was not asked, be that of the local crate.
pub open spec fn strip_path_verdict(
    req: Seq<char>,
    to: Seq<char>,
    local: Option<Seq<char>>,
    published: TextMap<Option<String>>,
) -> (Severity, Seq<char>) {
    if published.keys().len() > 0 {
        match if published.has(to) {
            text::opt(published@[to])
        } else {
            None
        } {
            Some(v) => match version::admitted(req, v) {
                Some(true) => (
                    Severity::Pass,
                    "version \""@ + req + "\" resolves on crates.io ("@ + v + ")"@,
                ),
                Some(false) => (
                    Severity::Error,
                    "version \""@ + req + "\" doesn't match crates.io "@ + v,
                ),
                None => (Severity::Warn, "couldn't parse version req \""@ + req + "\""@),
            },
            None => (
                Severity::Error,
                "'"@ + to + "' not published on crates.io — strip_path will fail"@,
            ),
        }
    } else {
        match local {
            Some(v) => match version::admitted(req, v) {
                Some(true) => (
                    Severity::Pass,
                    "version \""@ + req + "\" matches local "@ + v
                        + " (use --online to verify crates.io)"@,
                ),
                Some(false) => (
                    Severity::Warn,
                    "version \""@ + req + "\" doesn't match local "@ + v,
                ),
                None => (Severity::Warn, "couldn't parse version req \""@ + req + "\""@),
            },
            None => (Severity::Warn, "'"@ + to + "' not found in ecosystem"@),
        }
    }
}

/// The version of a known crate.
pub open spec fn local_version(eco: Ecosystem, name: Seq<char>) -> Option<Seq<char>> {
    if eco.crates.has(name) {
        Some(eco.crates@[name].version@)
    } else {
        None
    }
}

/// What becomes of a dependency whose path gives way to a git URL.
pub open spec fn git_url_verdict(
    dep: DepModel,
    url: Option<Seq<char>>,
    local: Option<Seq<char>>,
) -> (Severity, Seq<char>) {
    if url is None {
        (
            Severity::Error,
            "git_url strategy but no GitHub URL for '"@ + dep.to_crate + "'"@,
        )
    } else if dep.has_version {
        if dep.version_value is Some && local is Some {
            let req = dep.version_value.unwrap();
            match version::admitted(req, local.unwrap()) {
                Some(true) => (Severity::Pass, "git URL with consistent version"@),
                Some(false) => (
                    Severity::Info,
                    "version \""@ + req + "\" doesn't match local "@ + local.unwrap()
                        + " (git URL takes precedence)"@,
                ),
                None => (Severity::Pass, "git URL (version parse skipped)"@),
            }
        } else {
            (Severity::Pass, "git URL"@)
        }
    } else {
        (Severity::Pass, "path replaced with git URL"@)
    }
}

/// What becomes of a dependency.
pub open spec fn verdict(
    dep: DepModel,
    strategy: CiStrategy,
    eco: Ecosystem,
    config: SuperworkConfig,
    published: TextMap<Option<String>>,
) -> (Severity, Seq<char>) {
    match strategy {
        CiStrategy::Delete => if dep.section == DepSection::Dependencies && !dep.is_optional {
            (Severity::Warn, "required dep deleted in CI — features using it won't compile"@)
        } else {
            (Severity::Pass, "deleted in CI"@)
        },
        CiStrategy::StripPath => if !dep.has_version {
            (Severity::Error, "strip_path but no version — CI resolution will fail"@)
        } else {
            let req = match dep.version_value {
                Some(v) => v,
                None => "*"@,
            };
            strip_path_verdict(req, dep.to_crate, local_version(eco, dep.to_crate), published)
        },
        CiStrategy::GitUrl => git_url_verdict(
            dep,
            ci::git_url(dep.to_crate, dep.path_value, eco, config),
            local_version(eco, dep.to_crate),
        ),
    }
}

/// The finding on a dependency.
pub open spec fn finding_on(
    dep: DepModel,
    eco: Ecosystem,
    config: SuperworkConfig,
    published: TextMap<Option<String>>,
    inline: Option<&CiCrateOverride>,
) -> FindingModel {
    let strategy = config.strategy_of(dep.from_crate, dep.to_crate, inline);
    let found = verdict(dep, strategy, eco, config, published);
    FindingModel {
        from_crate: dep.from_crate,
        to_crate: dep.to_crate,
        section: dep.section,
        strategy,
        severity: found.0,
        message: found.1,
    }
}

/// What preparation warns of is an error here: a dependency whose repo has no URL, or one that
/// loses its path and has no version.
pub proof fn law_warned_deps_are_errors(
    dep: InternalDep,
    strategy: CiStrategy,
    crate_name: Seq<char>,
    eco: Ecosystem,
    config: SuperworkConfig,
    published: TextMap<Option<String>>,
)
    ensures
        ci::dep_warning(dep, strategy, ci::url_for(dep, eco, config), crate_name) is Some
            ==> verdict(dep@, strategy, eco, config, published).0 == Severity::Error,
{
}

/// Classify a dependency whose path is stripped.
pub fn classify_strip_path(
    version_req_str: &str,
    to_crate: &str,
    local: Option<&str>,
    published: &TextMap<Option<String>>,
) -> (r: (Severity, String))
    ensures
        (r.0, r.1@) == strip_path_verdict(
            version_req_str@,
            to_crate@,
            (match local {
                Some(v) => Some(v@),
                None => None,
            }),
            *published,
        ),
{
    if published.len() > 0 {
        let found = match published.get(to_crate) {
            Some(v) => match v {
                Some(v) => Some(v),
                None => None,
            },
            None => None,
        };
        match found {
            Some(v) => match version::requirement_admits(version_req_str, v.as_str()) {
                Some(true) => {
                    let mut m = text::cat4(
                        "version \"",
                        version_req_str,
                        "\" resolves on crates.io (",
                        v.as_str(),
                    );
                    m.append(")");
                    (Severity::Pass, m)
                },
                Some(false) => (
                    Severity::Error,
                    text::cat4(
                        "version \"",
                        version_req_str,
                        "\" doesn't match crates.io ",
                        v.as_str(),
                    ),
                ),
                None => (
                    Severity::Warn,
                    text::cat3("couldn't parse version req \"", version_req_str, "\""),
                ),
            },
            None => (
                Severity::Error,
                text::cat3("'", to_crate, "' not published on crates.io — strip_path will fail"),
            ),
        }
    } else {
        match local {
            Some(v) => match version::requirement_admits(version_req_str, v) {
                Some(true) => {
                    let mut m = text::cat4(
                        "version \"",
                        version_req_str,
                        "\" matches local ",
                        v,
                    );
                    m.append(" (use --online to verify crates.io)");
                    (Severity::Pass, m)
                },
                Some(false) => (
                    Severity::Warn,
                    text::cat4("version \"", version_req_str, "\" doesn't match local ", v),
                ),
                None => (
                    Severity::Warn,
                    text::cat3("couldn't parse version req \"", version_req_str, "\""),
                ),
            },
            None => (Severity::Warn, text::cat3("'", to_crate, "' not found in ecosystem")),
        }
    }
}

fn classify_git_url(dep: &InternalDep, url: &Option<String>, local: Option<&str>) -> (r: (
    Severity,
    String,
))
    ensures
        (r.0, r.1@) == git_url_verdict(
            dep@,
            text::opt(*url),
            (match local {
                Some(v) => Some(v@),
                None => None,
            }),
        ),
{
    if url.is_none() {
        return (
            Severity::Error,
            text::cat3("git_url strategy but no GitHub URL for '", dep.to_crate.as_str(), "'"),
        );
    }
    if !dep.has_version {
        return (Severity::Pass, "path replaced with git URL".to_string());
    }
    match (&dep.version_value, local) {
        (Some(req), Some(v)) => match version::requirement_admits(req.as_str(), v) {
            Some(true) => (Severity::Pass, "git URL with consistent version".to_string()),
            Some(false) => {
                let mut m = text::cat4(
                    "version \"",
                    req.as_str(),
                    "\" doesn't match local ",
                    v,
                );
                m.append(" (git URL takes precedence)");
                (Severity::Info, m)
            },
            None => (Severity::Pass, "git URL (version parse skipped)".to_string()),
        },
        _ => (Severity::Pass, "git URL".to_string()),
    }
}

/// Classify a dependency: what becomes of it once its manifest is prepared for CI.
pub fn classify_dep(
    dep: &InternalDep,
    eco: &Ecosystem,
    config: &SuperworkConfig,
    published: &TextMap<Option<String>>,
    inline_ci: Option<&CiCrateOverride>,
) -> (r: DepFinding)
    ensures
        r.model() == finding_on(dep@, *eco, *config, *published, inline_ci),
{
    let to = dep.to_crate.as_str();
    let strategy = config.ci_strategy_for(dep.from_crate.as_str(), to, inline_ci);
    let local = match eco.crates.get(to) {
        Some(info) => Some(info.version.as_str()),
        None => None,
    };
    let (severity, message) = match strategy {
        CiStrategy::Delete => {
            if dep.section == DepSection::Dependencies && !dep.is_optional {
                (
                    Severity::Warn,
                    "required dep deleted in CI — features using it won't compile".to_string(),
                )
            } else {
                (Severity::Pass, "deleted in CI".to_string())
            }
        },
        CiStrategy::StripPath => {
            if !dep.has_version {
                (
                    Severity::Error,
                    "strip_path but no version — CI resolution will fail".to_string(),
                )
            } else {
                match &dep.version_value {
                    Some(req) => classify_strip_path(req.as_str(), to, local, published),
                    None => classify_strip_path("*", to, local, published),
                }
            }
        },
        CiStrategy::GitUrl => {
            let dep_path = match &dep.path_value {
                Some(p) => Some(p.as_str()),
                None => None,
            };
            let url = ci::dep_git_url(to, dep_path, eco, config);
            classify_git_url(dep, &url, local)
        },
    };
    DepFinding {
        from_crate: dep.from_crate.clone(),
        to_crate: dep.to_crate.clone(),
        section: dep.section,
        strategy,
        severity,
        message,
    }
}

// ── What files say ──

/// Whether a line of a workflow edits manifests with sed.
pub open spec fn is_sed_hack(line: Seq<char>) -> bool {
    text::occurs(line, "sed "@) && (text::occurs(line, "Cargo.toml"@) || text::occurs(
        line,
        "path"@,
    ))
}

/// The lines of a workflow that edit manifests with sed, each with its place.
pub open spec fn sed_hacks(filename: Seq<char>, lines: Seq<Seq<char>>) -> Seq<Seq<char>>
    decreases lines.len(),
{
    if lines.len() == 0 {
        Seq::empty()
    } else {
        let before = sed_hacks(filename, lines.drop_last());
        let line = text::trim(lines.last());
        if is_sed_hack(line) {
            before.push(filename + ":"@ + text::decimal(lines.len()) + ": "@ + line)
        } else {
            before
        }
    }
}

/// Find the lines of a workflow that edit manifests with sed.
pub fn scan_for_sed_hacks(filename: &str, content: &str) -> (r: Vec<String>)
    ensures
        text::texts(r@) == sed_hacks(filename@, text::lines(content@)),
{
    let ls = text::lines_of(content);
    let ghost all = text::lines(content@);
    let mut out: Vec<String> = Vec::new();
    let mut i: usize = 0;
    assert(all.take(0) =~= Seq::<Seq<char>>::empty());
    assert(text::texts(out@) =~= Seq::<Seq<char>>::empty());
    assert(all.len() == ls.len());
    while i < ls.len()
        invariant
            i <= ls.len(),
            all == text::texts(ls@),
            text::texts(out@) == sed_hacks(filename@, all.take(i as int)),
        decreases ls.len() - i,
    {
        assert(all.take(i + 1).drop_last() =~= all.take(i as int));
        assert(all.take(i + 1).last() == ls@[i as int]@);
        let line = text::trimmed(ls[i].as_str());
        if text::contains(line.as_str(), "sed ") && (text::contains(line.as_str(), "Cargo.toml")
            || text::contains(line.as_str(), "path")) {
            let n = text::decimal_of((i + 1) as u64);
            let mut hack = text::cat4(filename, ":", n.as_str(), ": ");
            hack.append(line.as_str());
            out.push(hack);
        }
        i += 1;
    }
    assert(all.take(i as int) =~= all);
    out
}

/// Whether a file name is that of a workflow.
pub open spec fn is_workflow(filename: Seq<char>) -> bool {
    has_extension(filename, ".yml"@) || has_extension(filename, ".yaml"@)
}

/// Whether a file name has an extension, and something before it.
pub open spec fn has_extension(filename: Seq<char>, ext: Seq<char>) -> bool {
    ext.is_suffix_of(filename) && filename.len() > ext.len()
}

fn ends_in(filename: &str, ext: &str) -> (r: bool)
    ensures
        r == has_extension(filename@, ext@),
{
    match text::strip_end(filename, ext) {
        Some(stem) => {
            assert(stem@.len() == filename@.len() - ext@.len());
            let cs = text::chars_of(stem.as_str());
            cs.len() > 0
        },
        None => false,
    }
}

/// Whether a file name is that of a workflow.
pub fn names_workflow(filename: &str) -> (r: bool)
    ensures
        r == is_workflow(filename@),
{
    ends_in(filename, ".yml") || ends_in(filename, ".yaml")
}

/// Whether a workflow prepares manifests for CI.
pub fn check_uses_ci_prep(content: &str) -> (r: bool)
    ensures
        r == (text::occurs(content@, "superwork ci-prep"@) || text::occurs(
            content@,
            "superwork ci_prep"@,
        )),
{
    text::contains(content, "superwork ci-prep") || text::contains(content, "superwork ci_prep")
}

/// Whether a manifest's text patches crates.io.
pub fn has_patch_section(content: &str) -> (r: bool)
    ensures
        r == (text::occurs(content@, "[patch.crates-io]"@) || text::occurs(
            content@,
            "[patch.\"crates-io\"]"@,
        )),
{
    text::contains(content, "[patch.crates-io]") || text::contains(
        content,
        "[patch.\"crates-io\"]",
    )
}

/// The version of the first line that names one.
pub open spec fn version_in(lines: Seq<Seq<char>>, i: int) -> Option<Seq<char>>
    decreases lines.len() - i,
{
    if i >= lines.len() {
        None
    } else {
        match text::after_prefix(text::trim(lines[i]), "version:"@) {
            Some(v) => Some(text::leading_word(text::trim(v))),
            None => version_in(lines, i + 1),
        }
    }
}

/// Read the version from what `cargo info` prints.
pub fn query_crate_version(stdout: &str) -> (r: Option<String>)
    ensures
        text::opt(r) == version_in(text::lines(stdout@), 0),
{
    let ls = text::lines_of(stdout);
    let ghost all = text::lines(stdout@);
    assert(all.len() == ls.len());
    let mut i: usize = 0;
    while i < ls.len()
        invariant
            i <= ls.len(),
            all == text::texts(ls@),
            all.len() == ls.len(),
            version_in(all, i as int) == version_in(all, 0),
        decreases ls.len() - i,
    {
        assert(all[i as int] == ls@[i as int]@);
        let line = text::trimmed(ls[i].as_str());
        if let Some(v) = text::strip_lead(line.as_str(), "version:") {
            let v = text::trimmed(v.as_str());
            return Some(text::leading_word_of(v.as_str()));
        }
        i += 1;
    }
    None
}

// ── Report building ──

/// The repo whose report a dependency is in: that of the crate it is declared by, where it has
/// a path.
pub open spec fn report_dir(dep: DepModel, eco: Ecosystem) -> Option<Seq<char>> {
    if dep.has_path && eco.crates.has(dep.from_crate) {
        Some(eco.crates@[dep.from_crate].repo_dir@)
    } else {
        None
    }
}

/// The dependencies of a list that are in a repo's report.
pub open spec fn reported(deps: Seq<DepModel>, eco: Ecosystem, dir: Seq<char>) -> Seq<DepModel>
    decreases deps.len(),
{
    if deps.len() == 0 {
        Seq::empty()
    } else if report_dir(deps.last(), eco) == Some(dir) {
        reported(deps.drop_last(), eco, dir).push(deps.last())
    } else {
        reported(deps.drop_last(), eco, dir)
    }
}

/// Whether a crate of a repo matches a pattern.
pub open spec fn is_selected(eco: Ecosystem, dir: Seq<char>, filter: Option<&str>) -> bool {
    filter is Some ==> exists|name: Seq<char>| #[trigger]
        eco.crates.has(name) && eco.crates@[name].repo_dir@ == dir && glob::matches_tail_star(
            filter.unwrap()@,
            eco.crates@[name].name@,
        )
}

/// Whether a repo has a report.
pub open spec fn has_report(eco: Ecosystem, filter: Option<&str>, dir: Seq<char>) -> bool {
    reported(discover::dep_models(eco.deps@), eco, dir).len() > 0 && is_selected(eco, dir, filter)
}

/// A repo and the dependencies that its report is on.
pub struct RepoDeps {
    pub repo_dir: String,
    pub deps: Vec<InternalDep>,
}

pub open spec fn repo_dirs(v: Seq<RepoDeps>) -> Seq<Seq<char>> {
    v.map_values(|r: RepoDeps| r.repo_dir@)
}

fn dir_of(dep: &InternalDep, eco: &Ecosystem) -> (r: Option<String>)
    ensures
        text::opt(r) == report_dir(dep@, *eco),
{
    if !dep.has_path {
        return None;
    }
    match eco.crates.get(dep.from_crate.as_str()) {
        Some(info) => Some(info.repo_dir.clone()),
        None => None,
    }
}

fn selects(eco: &Ecosystem, dir: &str, filter: Option<&str>) -> (r: bool)
    ensures
        r == is_selected(*eco, dir@, filter),
{
    let pattern = match filter {
        Some(p) => p,
        None => return true,
    };
    let n: usize = eco.crates.len();
    let mut i: usize = 0;
    while i < n
        invariant
            i <= n,
            n == eco.crates.keys().len(),
            forall|j: int|
                0 <= j < i ==> !(eco.crates@[#[trigger] eco.crates.keys()[j]].repo_dir@ == dir@
                    && glob::matches_tail_star(
                    pattern@,
                    eco.crates@[eco.crates.keys()[j]].name@,
                )),
        decreases n - i,
    {
        let info = eco.crates.value_at(i);
        if text::same(info.repo_dir.as_str(), dir) && glob::tail_glob_match(
            pattern,
            info.name.as_str(),
        ) {
            assert(eco.crates.has(eco.crates.keys()[i as int]));
            return true;
        }
        i += 1;
    }
    assert forall|name: Seq<char>| #[trigger] eco.crates.has(name) implies !(
    eco.crates@[name].repo_dir@ == dir@ && glob::matches_tail_star(
        pattern@,
        eco.crates@[name].name@,
    )) by {
        let j = eco.crates.keys().index_of(name);
        assert(eco.crates.keys()[j] == name);
    }
    false
}

fn reported_in(eco: &Ecosystem, dir: &str) -> (r: Vec<InternalDep>)
    ensures
        discover::dep_models(r@) == reported(discover::dep_models(eco.deps@), *eco, dir@),
{
    let ghost ds = discover::dep_models(eco.deps@);
    let mut out: Vec<InternalDep> = Vec::new();
    let mut i: usize = 0;
    assert(ds.take(0) =~= Seq::<DepModel>::empty());
    assert(discover::dep_models(out@) =~= Seq::<DepModel>::empty());
    while i < eco.deps.len()
        invariant
            i <= eco.deps.len(),
            ds == discover::dep_models(eco.deps@),
            discover::dep_models(out@) == reported(ds.take(i as int), *eco, dir@),
        decreases eco.deps.len() - i,
    {
        assert(ds.take(i + 1).drop_last() =~= ds.take(i as int));
        assert(ds.take(i + 1).last() == eco.deps@[i as int]@);
        if let Some(d) = dir_of(&eco.deps[i], eco) {
            if text::same(d.as_str(), dir) {
                let ghost sofar = discover::dep_models(out@);
                let copy = discover::copy_dep(&eco.deps[i]);
                let ghost m = copy@;
                out.push(copy);
                assert(discover::dep_models(out@) =~= sofar.push(m));
            }
        }
        i += 1;
    }
    assert(ds.take(i as int) =~= ds);
    out
}

proof fn lemma_reported_some(deps: Seq<DepModel>, eco: Ecosystem, dir: Seq<char>)
    ensures
        reported(deps, eco, dir).len() > 0 <==> exists|i: int|
            0 <= i < deps.len() && #[trigger] report_dir(deps[i], eco) == Some(dir),
    decreases deps.len(),
{
    if deps.len() > 0 {
        let rest = deps.drop_last();
        lemma_reported_some(rest, eco, dir);
        if reported(deps, eco, dir).len() > 0 {
            if report_dir(deps.last(), eco) == Some(dir) {
                assert(report_dir(deps[deps.len() - 1], eco) == Some(dir));
            } else {
                let i = choose|i: int|
                    0 <= i < rest.len() && #[trigger] report_dir(rest[i], eco) == Some(dir);
                assert(report_dir(deps[i], eco) == Some(dir));
            }
        }
        if exists|i: int| 0 <= i < deps.len() && #[trigger] report_dir(deps[i], eco) == Some(dir) {
            let i = choose|i: int|
                0 <= i < deps.len() && #[trigger] report_dir(deps[i], eco) == Some(dir);
            if i < rest.len() {
                assert(report_dir(rest[i], eco) == Some(dir));
            }
        }
    }
}

/// Group the dependencies that have a path by the repo of the crate that declares them.
pub fn deps_by_repo(eco: &Ecosystem, filter: Option<&str>) -> (r: Vec<RepoDeps>)
    ensures
        text::strictly_ordered(repo_dirs(r@)),
        forall|d: Seq<char>| #[trigger] repo_dirs(r@).contains(d) <==> has_report(*eco, filter, d),
        forall|i: int|
            0 <= i < r.len() ==> discover::dep_models((#[trigger] r@[i]).deps@) == reported(
                discover::dep_models(eco.deps@),
                *eco,
                r@[i].repo_dir@,
            ),
{
    let ghost ds = discover::dep_models(eco.deps@);
    let mut dirs: Vec<String> = Vec::new();
    let mut i: usize = 0;
    assert(text::texts(dirs@) =~= Seq::<Seq<char>>::empty());
    while i < eco.deps.len()
        invariant
            i <= eco.deps.len(),
            ds == discover::dep_models(eco.deps@),
            text::strictly_ordered(text::texts(dirs@)),
            forall|d: Seq<char>| #[trigger]
                text::texts(dirs@).contains(d) <==> exists|k: int|
                    0 <= k < i && #[trigger] report_dir(ds[k], *eco) == Some(d),
        decreases eco.deps.len() - i,
    {
        let ghost sofar = text::texts(dirs@);
        assert(ds[i as int] == eco.deps@[i as int]@);
        let dir = dir_of(&eco.deps[i], eco);
        let ghost found = report_dir(ds[i as int], *eco);
        if let Some(dir) = dir {
            group::insert_distinct(&mut dirs, dir);
        }
        proof {
            let now = text::texts(dirs@);
            assert forall|d: Seq<char>| #[trigger] now.contains(d) <==> exists|k: int|
                0 <= k < i + 1 && #[trigger] report_dir(ds[k], *eco) == Some(d) by {
                if now.contains(d) {
                    if sofar.contains(d) {
                        let k = choose|k: int|
                            0 <= k < i && #[trigger] report_dir(ds[k], *eco) == Some(d);
                        assert(report_dir(ds[k], *eco) == Some(d));
                    } else {
                        assert(report_dir(ds[i as int], *eco) == Some(d));
                    }
                }
                if exists|k: int|
                    0 <= k < i + 1 && #[trigger] report_dir(ds[k], *eco) == Some(d) {
                    let k = choose|k: int|
                        0 <= k < i + 1 && #[trigger] report_dir(ds[k], *eco) == Some(d);
                    if k < i {
                        assert(sofar.contains(d));
                    }
                }
            }
        }
        i += 1;
    }
    let ghost all = text::texts(dirs@);
    assert forall|d: Seq<char>| #[trigger] all.contains(d) <==> reported(ds, *eco, d).len() > 0 by {
        lemma_reported_some(ds, *eco, d);
    }
    let mut out: Vec<RepoDeps> = Vec::new();
    let mut j: usize = 0;
    assert(repo_dirs(out@) =~= Seq::<Seq<char>>::empty());
    while j < dirs.len()
        invariant
            j <= dirs.len(),
            ds == discover::dep_models(eco.deps@),
            all == text::texts(dirs@),
            text::strictly_ordered(all),
            text::strictly_ordered(repo_dirs(out@)),
            forall|d: Seq<char>| #[trigger]
                repo_dirs(out@).contains(d) <==> all.take(j as int).contains(d) && is_selected(
                    *eco,
                    d,
                    filter,
                ),
            forall|k: int|
                0 <= k < out.len() ==> discover::dep_models((#[trigger] out@[k]).deps@) == reported(
                    ds,
                    *eco,
                    out@[k].repo_dir@,
                ),
        decreases dirs.len() - j,
    {
        let ghost dir = dirs@[j as int]@;
        let ghost sofar = repo_dirs(out@);
        proof {
            assert(all[j as int] == dir);
            assert(all.take(j + 1) =~= all.take(j as int).push(dir));
            group::lemma_push_contains(all.take(j as int), dir);
            group::lemma_push_contains(sofar, dir);
        }
        if selects(eco, dirs[j].as_str(), filter) {
            let deps = reported_in(eco, dirs[j].as_str());
            out.push(RepoDeps { repo_dir: dirs[j].clone(), deps });
            proof {
                let now = repo_dirs(out@);
                assert(now =~= sofar.push(dir));
                assert forall|a: int, b: int| 0 <= a < b < now.len() implies text::precedes(
                    #[trigger] now[a],
                    #[trigger] now[b],
                ) by {
                    if b == sofar.len() {
                        assert(sofar.contains(sofar[a]));
                        let k = all.take(j as int).index_of(sofar[a]);
                        assert(all.take(j as int).contains(sofar[a]));
                        assert(all[k] == sofar[a]);
                    }
                }
            }
        }
        j += 1;
    }
    assert(all.take(j as int) =~= all);
    out
}

/// Whether a dependency is linted: it has a path, and the repo of the crate that declares it is
/// selected.
pub open spec fn is_linted(dep: DepModel, eco: Ecosystem, filter: Option<&str>) -> bool {
    report_dir(dep, eco) is Some && is_selected(eco, report_dir(dep, eco).unwrap(), filter)
}

/// The dependencies of a list that are linted.
pub open spec fn linted(deps: Seq<DepModel>, eco: Ecosystem, filter: Option<&str>) -> Seq<DepModel>
    decreases deps.len(),
{
    if deps.len() == 0 {
        Seq::empty()
    } else if is_linted(deps.last(), eco, filter) {
        linted(deps.drop_last(), eco, filter).push(deps.last())
    } else {
        linted(deps.drop_last(), eco, filter)
    }
}

/// Count the dependencies that are linted.
pub fn count_linted(eco: &Ecosystem, filter: Option<&str>) -> (r: usize)
    ensures
        r == linted(discover::dep_models(eco.deps@), *eco, filter).len(),
{
    let ghost ds = discover::dep_models(eco.deps@);
    let mut count: usize = 0;
    let mut i: usize = 0;
    assert(ds.take(0) =~= Seq::<DepModel>::empty());
    while i < eco.deps.len()
        invariant
            i <= eco.deps.len(),
            count <= i,
            ds == discover::dep_models(eco.deps@),
            count == linted(ds.take(i as int), *eco, filter).len(),
        decreases eco.deps.len() - i,
    {
        assert(ds.take(i + 1).drop_last() =~= ds.take(i as int));
        assert(ds.take(i + 1).last() == eco.deps@[i as int]@);
        if let Some(dir) = dir_of(&eco.deps[i], eco) {
            if selects(eco, dir.as_str(), filter) {
                count += 1;
            }
        }
        i += 1;
    }
    assert(ds.take(i as int) =~= ds);
    count
}

/// A linted dependency is in the report of its repo, and that repo has one.
pub proof fn law_linted_deps_are_reported(
    eco: Ecosystem,
    filter: Option<&str>,
    i: int,
)
    requires
        0 <= i < eco.deps@.len(),
        is_linted(discover::dep_models(eco.deps@)[i], eco, filter),
    ensures
        ({
            let deps = discover::dep_models(eco.deps@);
            let dir = report_dir(deps[i], eco).unwrap();
            has_report(eco, filter, dir) && reported(deps, eco, dir).contains(deps[i])
        }),
{
    let deps = discover::dep_models(eco.deps@);
    let dir = report_dir(deps[i], eco).unwrap();
    lemma_reported_some(deps, eco, dir);
    lemma_reported_holds(deps, eco, dir, i);
}

proof fn lemma_reported_holds(deps: Seq<DepModel>, eco: Ecosystem, dir: Seq<char>, i: int)
    requires
        0 <= i < deps.len(),
        report_dir(deps[i], eco) == Some(dir),
    ensures
        reported(deps, eco, dir).contains(deps[i]),
    decreases deps.len(),
{
    let rest = deps.drop_last();
    if i < rest.len() {
        lemma_reported_holds(rest, eco, dir, i);
        let j = reported(rest, eco, dir).index_of(rest[i]);
        assert(reported(deps, eco, dir)[j] == deps[i]);
    } else {
        assert(reported(deps, eco, dir).last() == deps[i]);
    }
}

/// What files say of a repo.
pub struct RepoSigns {
    /// Whether a workflow prepares manifests for CI.
    pub uses_ci_prep: bool,
    /// Lines of workflows that edit manifests with sed.
    pub sed_hacks: Vec<String>,
    /// Whether a manifest patches crates.io.
    pub has_patch_section: bool,
}

pub struct RepoReport {
    pub repo_dir: String,
    pub findings: Vec<DepFinding>,
    /// The places of the findings, the most severe first.
    pub order: Vec<usize>,
    pub sed_hacks: Vec<String>,
    pub has_ci_config: bool,
    pub uses_ci_prep: bool,
}

/// Whether a crate of a repo has CI settings of its own.
pub open spec fn has_inline_ci(eco: Ecosystem, dir: Seq<char>) -> bool {
    exists|name: Seq<char>| #[trigger]
        eco.crates.has(name) && eco.crates@[name].repo_dir@ == dir && eco.crates@[name].inline_ci
            is Some
}

/// Whether settings delete a patch section.
pub open spec fn deletes_patch(ovr: CiCrateOverride) -> bool {
    exists|i: int|
        0 <= i < ovr.delete_sections@.len() && text::occurs(
            (#[trigger] ovr.delete_sections@[i])@,
            "patch"@,
        )
}

/// Whether the settings of a crate of a repo delete a patch section.
pub open spec fn patch_deleted(eco: Ecosystem, dir: Seq<char>) -> bool {
    exists|name: Seq<char>| #[trigger]
        eco.crates.has(name) && eco.crates@[name].repo_dir@ == dir && eco.crates@[name].inline_ci
            is Some && deletes_patch(eco.crates@[name].inline_ci.unwrap())
}

/// The findings on the dependencies of a list.
pub open spec fn findings_on(
    deps: Seq<DepModel>,
    eco: Ecosystem,
    config: SuperworkConfig,
    published: TextMap<Option<String>>,
) -> Seq<FindingModel> {
    deps.map_values(
        |d: DepModel|
            finding_on(d, eco, config, published, ci::inline_of(eco, d.from_crate)),
    )
}

/// The finding on a repo whose manifests keep a patch section.
pub open spec fn patch_finding(dir: Seq<char>) -> FindingModel {
    FindingModel {
        from_crate: dir,
        to_crate: Seq::empty(),
        section: DepSection::Dependencies,
        strategy: CiStrategy::GitUrl,
        severity: Severity::Warn,
        message: "[patch.crates-io] exists but not in delete_sections — will break CI resolution"@,
    }
}

/// How severe each finding is.
pub open spec fn levels(findings: Seq<DepFinding>) -> Seq<usize> {
    findings.map_values(|f: DepFinding| f.severity.level())
}

/// Whether a report is the one on a repo's dependencies.
pub open spec fn is_report(
    r: RepoReport,
    dir: Seq<char>,
    deps: Seq<DepModel>,
    eco: Ecosystem,
    config: SuperworkConfig,
    published: TextMap<Option<String>>,
    signs: RepoSigns,
) -> bool {
    &&& r.repo_dir@ == dir
    &&& finding_models(r.findings@) == if signs.has_patch_section && !patch_deleted(eco, dir) {
        findings_on(deps, eco, config, published).push(patch_finding(dir))
    } else {
        findings_on(deps, eco, config, published)
    }
    &&& group::is_ranking(levels(r.findings@), r.order@)
    &&& r.sed_hacks == signs.sed_hacks
    &&& r.has_ci_config == has_inline_ci(eco, dir)
    &&& r.uses_ci_prep == signs.uses_ci_prep
}

fn deletes_patch_section(ovr: &CiCrateOverride) -> (r: bool)
    ensures
        r == deletes_patch(*ovr),
{
    let mut i: usize = 0;
    while i < ovr.delete_sections.len()
        invariant
            i <= ovr.delete_sections.len(),
            forall|j: int|
                0 <= j < i ==> !text::occurs((#[trigger] ovr.delete_sections@[j])@, "patch"@),
        decreases ovr.delete_sections.len() - i,
    {
        if text::contains(ovr.delete_sections[i].as_str(), "patch") {
            return true;
        }
        i += 1;
    }
    false
}

fn read_inline_ci(eco: &Ecosystem, dir: &str) -> (r: (bool, bool))
    ensures
        r.0 == has_inline_ci(*eco, dir@),
        r.1 == patch_deleted(*eco, dir@),
{
    let n: usize = eco.crates.len();
    let mut found = false;
    let mut deleted = false;
    let mut i: usize = 0;
    while i < n
        invariant
            i <= n,
            n == eco.crates.keys().len(),
            found ==> has_inline_ci(*eco, dir@),
            deleted ==> patch_deleted(*eco, dir@),
            !found ==> forall|j: int|
                0 <= j < i ==> !(eco.crates@[#[trigger] eco.crates.keys()[j]].repo_dir@ == dir@
                    && eco.crates@[eco.crates.keys()[j]].inline_ci is Some),
            !deleted ==> forall|j: int|
                0 <= j < i ==> !(eco.crates@[#[trigger] eco.crates.keys()[j]].repo_dir@ == dir@
                    && eco.crates@[eco.crates.keys()[j]].inline_ci is Some && deletes_patch(
                    eco.crates@[eco.crates.keys()[j]].inline_ci.unwrap(),
                )),
        decreases n - i,
    {
        let info = eco.crates.value_at(i);
        if text::same(info.repo_dir.as_str(), dir) {
            if let Some(ovr) = &info.inline_ci {
                assert(eco.crates.has(eco.crates.keys()[i as int]));
                found = true;
                if deletes_patch_section(ovr) {
                    deleted = true;
                }
            }
        }
        i += 1;
    }
    assert forall|name: Seq<char>| #[trigger] eco.crates.has(name) implies
        eco.crates.keys().contains(name) && eco.crates.keys()[eco.crates.keys().index_of(name)]
        == name by {
    }
    (found, deleted)
}

fn push_finding(list: &mut Vec<DepFinding>, f: DepFinding)
    ensures
        finding_models(final(list)@) == finding_models(old(list)@).push(f.model()),
{
    let ghost sofar = finding_models(list@);
    let ghost m = f.model();
    list.push(f);
    assert(finding_models(list@) =~= sofar.push(m));
}

/// Report on a repo.
pub fn lint_repo(
    repo: &RepoDeps,
    eco: &Ecosystem,
    config: &SuperworkConfig,
    published: &TextMap<Option<String>>,
    signs: RepoSigns,
) -> (r: RepoReport)
    ensures
        is_report(
            r,
            repo.repo_dir@,
            discover::dep_models(repo.deps@),
            *eco,
            *config,
            *published,
            signs,
        ),
{
    let dir = repo.repo_dir.as_str();
    let (has_ci_config, patch_section_deleted) = read_inline_ci(eco, dir);
    let ghost ds = discover::dep_models(repo.deps@);
    let ghost all = findings_on(ds, *eco, *config, *published);
    let mut findings: Vec<DepFinding> = Vec::new();
    let mut i: usize = 0;
    assert(finding_models(findings@) =~= all.take(0));
    while i < repo.deps.len()
        invariant
            i <= repo.deps.len(),
            ds == discover::dep_models(repo.deps@),
            all == findings_on(ds, *eco, *config, *published),
            finding_models(findings@) == all.take(i as int),
        decreases repo.deps.len() - i,
    {
        let dep = &repo.deps[i];
        let inline_ci = match eco.crates.get(dep.from_crate.as_str()) {
            Some(c) => match &c.inline_ci {
                Some(o) => Some(o),
                None => None,
            },
            None => None,
        };
        assert(ds[i as int] == dep@);
        assert(inline_ci == ci::inline_of(*eco, dep@.from_crate));
        let finding = classify_dep(dep, eco, config, published, inline_ci);
        let ghost m = finding.model();
        assert(all[i as int] == m);
        push_finding(&mut findings, finding);
        assert(all.take(i + 1) =~= all.take(i as int).push(m));
        i += 1;
    }
    assert(all.take(i as int) =~= all);
    if signs.has_patch_section && !patch_section_deleted {
        let none = String::new();
        assert(none@ =~= Seq::<char>::empty());
        push_finding(
            &mut findings,
            DepFinding {
                from_crate: repo.repo_dir.clone(),
                to_crate: none,
                section: DepSection::Dependencies,
                strategy: CiStrategy::GitUrl,
                severity: Severity::Warn,
                message:
                    "[patch.crates-io] exists but not in delete_sections — will break CI resolution".to_string(),
            },
        );
    }
    let order = severity_order(&findings);
    RepoReport {
        repo_dir: repo.repo_dir.clone(),
        findings,
        order,
        sed_hacks: signs.sed_hacks,
        has_ci_config,
        uses_ci_prep: signs.uses_ci_prep,
    }
}

fn severity_order(findings: &Vec<DepFinding>) -> (r: Vec<usize>)
    ensures
        group::is_ranking(levels(findings@), r@),
{
    let mut scores: Vec<usize> = Vec::new();
    let mut i: usize = 0;
    while i < findings.len()
        invariant
            i <= findings.len(),
            scores@ == levels(findings@).take(i as int),
        decreases findings.len() - i,
    {
        scores.push(findings[i].severity.rank());
        assert(levels(findings@).take(i + 1) =~= levels(findings@).take(i as int).push(
            findings@[i as int].severity.level(),
        ));
        i += 1;
    }
    assert(levels(findings@).take(i as int) =~= levels(findings@));
    group::ranked(&scores)
}

/// The highest of the levels.
pub open spec fn worst(findings: Seq<DepFinding>) -> usize
    decreases findings.len(),
{
    if findings.len() == 0 {
        0
    } else {
        let before = worst(findings.drop_last());
        let level = findings.last().severity.level();
        if level > before {
            level
        } else {
            before
        }
    }
}

/// How bad each report is.
pub open spec fn worst_levels(reports: Seq<RepoReport>) -> Seq<usize> {
    reports.map_values(|r: RepoReport| worst(r.findings@))
}

fn worst_of(findings: &Vec<DepFinding>) -> (r: usize)
    ensures
        r == worst(findings@),
{
    let mut max: usize = 0;
    let mut i: usize = 0;
    assert(findings@.take(0) =~= Seq::<DepFinding>::empty());
    while i < findings.len()
        invariant
            i <= findings.len(),
            max == worst(findings@.take(i as int)),
        decreases findings.len() - i,
    {
        assert(findings@.take(i + 1).drop_last() =~= findings@.take(i as int));
        let level: usize = findings[i].severity.rank();
        if level > max {
            max = level;
        }
        i += 1;
    }
    assert(findings@.take(i as int) =~= findings@);
    max
}

/// The places of the reports, the worst first; reports that are equally bad keep their order.
pub fn order_reports(reports: &Vec<RepoReport>) -> (r: Vec<usize>)
    ensures
        group::is_ranking(worst_levels(reports@), r@),
{
    let mut scores: Vec<usize> = Vec::new();
    let mut i: usize = 0;
    while i < reports.len()
        invariant
            i <= reports.len(),
            scores@ == worst_levels(reports@).take(i as int),
        decreases reports.len() - i,
    {
        scores.push(worst_of(&reports[i].findings));
        assert(worst_levels(reports@).take(i + 1) =~= worst_levels(reports@).take(i as int).push(
            worst(reports@[i as int].findings@),
        ));
        i += 1;
    }
    assert(worst_levels(reports@).take(i as int) =~= worst_levels(reports@));
    group::ranked(&scores)
}

// ── Report printing ──

/// How many findings have a severity.
pub open spec fn severity_count(findings: Seq<DepFinding>, severity: Severity) -> nat
    decreases findings.len(),
{
    if findings.len() == 0 {
        0
    } else {
        severity_count(findings.drop_last(), severity) + if findings.last().severity == severity {
            1nat
        } else {
            0nat
        }
    }
}

/// How many findings of all reports have a severity.
pub open spec fn total_count(reports: Seq<RepoReport>, severity: Severity) -> nat
    decreases reports.len(),
{
    if reports.len() == 0 {
        0
    } else {
        total_count(reports.drop_last(), severity) + severity_count(
            reports.last().findings@,
            severity,
        )
    }
}

/// Whether a repo has CI settings that its workflows do not use.
pub open spec fn has_dead_config(r: RepoReport) -> bool {
    r.has_ci_config && !r.uses_ci_prep
}

/// How many remarks the reports make besides their findings: one for each line that edits
/// manifests with sed, and one for settings that are not used.
pub open spec fn remarks(reports: Seq<RepoReport>) -> nat
    decreases reports.len(),
{
    if reports.len() == 0 {
        0
    } else {
        remarks(reports.drop_last()) + reports.last().sed_hacks@.len() + if has_dead_config(
            reports.last(),
        ) {
            1nat
        } else {
            0nat
        }
    }
}

/// Whether there is something to show of a report.
pub open spec fn is_visible(r: RepoReport, verbose: bool) -> bool {
    (exists|i: int|
        0 <= i < r.findings@.len() && (verbose || (#[trigger] r.findings@[i]).severity
            != Severity::Pass)) || r.sed_hacks@.len() > 0 || has_dead_config(r)
}

impl RepoReport {
    /// Whether there is something to show of the report.
    pub fn visible(&self, verbose: bool) -> (r: bool)
        ensures
            r == is_visible(*self, verbose),
    {
        if self.sed_hacks.len() > 0 || (self.has_ci_config && !self.uses_ci_prep) {
            return true;
        }
        let mut i: usize = 0;
        while i < self.findings.len()
            invariant
                i <= self.findings.len(),
                forall|j: int|
                    0 <= j < i ==> !(verbose || (#[trigger] self.findings@[j]).severity
                        != Severity::Pass),
            decreases self.findings.len() - i,
        {
            if verbose || self.findings[i].severity != Severity::Pass {
                assert(verbose || self.findings@[i as int].severity != Severity::Pass);
                return true;
            }
            i += 1;
        }
        false
    }
}

fn count_severity(findings: &Vec<DepFinding>, severity: Severity) -> (r: usize)
    ensures
        r == severity_count(findings@, severity),
{
    let mut n: usize = 0;
    let mut i: usize = 0;
    assert(findings@.take(0) =~= Seq::<DepFinding>::empty());
    while i < findings.len()
        invariant
            i <= findings.len(),
            n <= i,
            n == severity_count(findings@.take(i as int), severity),
        decreases findings.len() - i,
    {
        assert(findings@.take(i + 1).drop_last() =~= findings@.take(i as int));
        if findings[i].severity == severity {
            n += 1;
        }
        i += 1;
    }
    assert(findings@.take(i as int) =~= findings@);
    n
}

/// How many findings of all reports have a severity.
pub fn count_all(reports: &Vec<RepoReport>, severity: Severity) -> (r: usize)
    ensures
        r == ci::capped(total_count(reports@, severity)),
{
    let mut n: usize = 0;
    let mut i: usize = 0;
    assert(reports@.take(0) =~= Seq::<RepoReport>::empty());
    while i < reports.len()
        invariant
            i <= reports.len(),
            n == ci::capped(total_count(reports@.take(i as int), severity)),
        decreases reports.len() - i,
    {
        assert(reports@.take(i + 1).drop_last() =~= reports@.take(i as int));
        n = n.saturating_add(count_severity(&reports[i].findings, severity));
        i += 1;
    }
    assert(reports@.take(i as int) =~= reports@);
    n
}

/// How many remarks the reports make besides their findings.
pub fn count_remarks(reports: &Vec<RepoReport>) -> (r: usize)
    ensures
        r == ci::capped(remarks(reports@)),
{
    let mut n: usize = 0;
    let mut i: usize = 0;
    assert(reports@.take(0) =~= Seq::<RepoReport>::empty());
    while i < reports.len()
        invariant
            i <= reports.len(),
            n == ci::capped(remarks(reports@.take(i as int))),
        decreases reports.len() - i,
    {
        assert(reports@.take(i + 1).drop_last() =~= reports@.take(i as int));
        n = n.saturating_add(reports[i].sed_hacks.len());
        if reports[i].has_ci_config && !reports[i].uses_ci_prep {
            n = n.saturating_add(1);
        }
        i += 1;
    }
    assert(reports@.take(i as int) =~= reports@);
    n
}

/// A report that is not shown has nothing but passes.
pub proof fn law_hidden_reports_pass(r: RepoReport, verbose: bool, i: int)
    requires
        !is_visible(r, verbose),
        0 <= i < r.findings@.len(),
    ensures
        r.findings@[i].severity == Severity::Pass,
{
}

/// Whether the lint passes; the message counts the errors where it does not.
pub fn lint_verdict(errors: usize) -> (r: Result<(), String>)
    ensures
        errors == 0 ==> r is Ok,
        errors > 0 ==> r is Err && r->Err_0@ == text::decimal(errors as nat)
            + " CI lint errors found"@,
{
    if errors > 0 {
        let n = text::decimal_of(errors as u64);
        Err(text::cat2(n.as_str(), " CI lint errors found"))
    } else {
        Ok(())
    }
}

/// A strategy as it is shown in a column.
pub open spec fn strategy_label(s: CiStrategy) -> Seq<char> {
    match s {
        CiStrategy::GitUrl => "git_url   "@,
        CiStrategy::StripPath => "strip_path"@,
        CiStrategy::Delete => "delete    "@,
    }
}

/// What is shown behind a dependency of a section.
pub open spec fn section_suffix(s: DepSection) -> Seq<char> {
    match s {
        DepSection::DevDependencies => " (dev)"@,
        DepSection::BuildDependencies => " (build)"@,
        _ => Seq::empty(),
    }
}

/// The line for a finding.
pub open spec fn finding_line(f: FindingModel) -> Seq<char> {
    let lead = "  "@ + f.severity.label() + "  "@ + strategy_label(f.strategy) + "  "@;
    if f.to_crate.len() == 0 {
        lead + f.message
    } else {
        lead + f.from_crate + " -> "@ + f.to_crate + section_suffix(f.section) + "  "@ + f.message
    }
}

impl DepFinding {
    /// The line for the finding.
    pub fn line(&self) -> (r: String)
        ensures
            r@ == finding_line(self.model()),
    {
        let strategy = match self.strategy {
            CiStrategy::GitUrl => "git_url   ",
            CiStrategy::StripPath => "strip_path",
            CiStrategy::Delete => "delete    ",
        };
        let mut out = text::cat4("  ", self.severity.name(), "  ", strategy);
        out.append("  ");
        let cs = text::chars_of(self.to_crate.as_str());
        if cs.len() > 0 {
            out.append(self.from_crate.as_str());
            out.append(" -> ");
            out.append(self.to_crate.as_str());
            match self.section {
                DepSection::DevDependencies => out.append(" (dev)"),
                DepSection::BuildDependencies => out.append(" (build)"),
                _ => {
                    assert(out@ + Seq::<char>::empty() =~= out@);
                },
            }
            out.append("  ");
        }
        out.append(self.message.as_str());
        out
    }
}

/// The directory of a repo, given one of its crates: that of the crate's workspace, else that of
/// its manifest, else the repo's name under the root.
pub open spec fn repo_path(root: Seq<char>, dir: Seq<char>, first: Option<CrateInfo>) -> Seq<char> {
    match first {
        Some(c) => if c.workspace_root is Some && path::parent(c.workspace_root.unwrap()@) is Some {
            path::parent(c.workspace_root.unwrap()@).unwrap()
        } else if path::parent(c.manifest_path@) is Some {
            path::parent(c.manifest_path@).unwrap()
        } else {
            path::joined(root, dir)
        },
        None => path::joined(root, dir),
    }
}

/// Find the directory of a repo.
pub fn resolve_repo_path(ecosystem_root: &str, repo_dir: &str, first: Option<&CrateInfo>) -> (r:
    String)
    ensures
        r@ == repo_path(
            ecosystem_root@,
            repo_dir@,
            (match first {
                Some(c) => Some(*c),
                None => None,
            }),
        ),
{
    if let Some(c) = first {
        if let Some(ws) = &c.workspace_root {
            if let Some(parent) = path::parent_of(ws.as_str()) {
                return parent;
            }
        }
        if let Some(parent) = path::parent_of(c.manifest_path.as_str()) {
            return parent;
        }
    }
    path::join_path(ecosystem_root, repo_dir)
}

// ── What a lint finds ──

/// A dependency that is deleted is a warning where it stands in the ordinary dependencies and is
/// not optional, and no finding elsewhere.
pub proof fn law_deleted_deps(
    dep: DepModel,
    eco: Ecosystem,
    config: SuperworkConfig,
    published: TextMap<Option<String>>,
)
    ensures
        verdict(dep, CiStrategy::Delete, eco, config, published).0 == Severity::Warn
            <==> dep.section == DepSection::Dependencies && !dep.is_optional,
        verdict(dep, CiStrategy::Delete, eco, config, published).0 == Severity::Pass
            <==> dep.section != DepSection::Dependencies || dep.is_optional,
{
}

/// A dependency that loses its path needs a version. Where crates.io was asked, the version has to
/// be that of a published crate; where it was not, one that differs from the local crate, or a
/// crate that is not known, is a warning.
pub proof fn law_stripped_deps(
    dep: DepModel,
    eco: Ecosystem,
    config: SuperworkConfig,
    published: TextMap<Option<String>>,
)
    ensures
        ({
            let severity = verdict(dep, CiStrategy::StripPath, eco, config, published).0;
            let req = match dep.version_value {
                Some(v) => v,
                None => "*"@,
            };
            let asked = published.keys().len() > 0;
            let there = published.has(dep.to_crate) && published@[dep.to_crate] is Some;
            let on_registry = version::admitted(req, published@[dep.to_crate].unwrap()@);
            let known = eco.crates.has(dep.to_crate);
            let here = version::admitted(req, eco.crates@[dep.to_crate].version@);
            &&& !dep.has_version ==> severity == Severity::Error
            &&& dep.has_version && asked ==> {
                &&& severity == Severity::Error <==> !there || on_registry == Some(false)
                &&& severity == Severity::Pass <==> there && on_registry == Some(true)
                &&& severity == Severity::Warn <==> there && on_registry is None
            }
            &&& dep.has_version && !asked ==> {
                &&& severity == Severity::Pass <==> known && here == Some(true)
                &&& severity == Severity::Warn <==> !known || here != Some(true)
            }
        }),
{
}

/// A dependency that is to get a git URL and has none is an error. With one, a version that does
/// not match the local crate is only told, since the URL comes first.
pub proof fn law_git_deps(
    dep: DepModel,
    eco: Ecosystem,
    config: SuperworkConfig,
    published: TextMap<Option<String>>,
)
    ensures
        ({
            let severity = verdict(dep, CiStrategy::GitUrl, eco, config, published).0;
            let url = ci::git_url(dep.to_crate, dep.path_value, eco, config);
            let differs = dep.has_version && dep.version_value is Some && eco.crates.has(
                dep.to_crate,
            ) && version::admitted(
                dep.version_value.unwrap(),
                eco.crates@[dep.to_crate].version@,
            ) == Some(false);
            &&& severity == Severity::Error <==> url is None
            &&& severity == Severity::Info <==> url is Some && differs
            &&& severity == Severity::Pass <==> url is Some && !differs
        }),
{
}

/// Each finding is on its dependency, by the strategy that the settings give it.
pub proof fn law_findings_go_by_the_strategy(
    dep: DepModel,
    eco: Ecosystem,
    config: SuperworkConfig,
    published: TextMap<Option<String>>,
    inline: Option<&CiCrateOverride>,
)
    ensures
        ({
            let f = finding_on(dep, eco, config, published, inline);
            &&& f.from_crate == dep.from_crate && f.to_crate == dep.to_crate && f.section
                == dep.section
            &&& f.strategy == config.strategy_of(dep.from_crate, dep.to_crate, inline)
            &&& f.severity == verdict(dep, f.strategy, eco, config, published).0
        }),
{
}

/// The report on a repo is on each dependency with a path that a known crate of the repo declares,
/// in whichever section and wherever the path leads.
pub proof fn law_reported_deps(deps: Seq<DepModel>, eco: Ecosystem, dir: Seq<char>)
    ensures
        reported(deps, eco, dir) == deps.filter(
            |d: DepModel|
                d.has_path && eco.crates.has(d.from_crate)
                    && eco.crates@[d.from_crate].repo_dir@ == dir,
        ),
    decreases deps.len(),
{
    reveal(Seq::filter);
    if deps.len() > 0 {
        law_reported_deps(deps.drop_last(), eco, dir);
    }
}

/// Linted is each dependency with a path that a known crate declares, as far as a crate of the same
/// repo matches the pattern.
pub proof fn law_linted_deps(deps: Seq<DepModel>, eco: Ecosystem, filter: Option<&str>)
    ensures
        linted(deps, eco, filter) == deps.filter(
            |d: DepModel|
                d.has_path && eco.crates.has(d.from_crate)
                    && (filter is None
                    || exists|name: Seq<char>| #[trigger] eco.crates.has(name)
                    && eco.crates@[name].repo_dir@ == eco.crates@[d.from_crate].repo_dir@
                    && glob::matches_tail_star(filter.unwrap()@, eco.crates@[name].name@)),
        ),
    decreases deps.len(),
{
    reveal(Seq::filter);
    if deps.len() > 0 {
        law_linted_deps(deps.drop_last(), eco, filter);
    }
}

/// Each finding of a severity counts.
pub proof fn law_severities_are_counted(findings: Seq<DepFinding>, severity: Severity)
    ensures
        severity_count(findings, severity) == findings.filter(
            |f: DepFinding| f.severity == severity,
        ).len(),
    decreases findings.len(),
{
    reveal(Seq::filter);
    if findings.len() > 0 {
        law_severities_are_counted(findings.drop_last(), severity);
    }
}

/// The findings of all reports count: there is one of a severity exactly where a report has one.
pub proof fn law_all_reports_count(reports: Seq<RepoReport>, severity: Severity)
    ensures
        total_count(reports, severity) == reports.fold_left(
            0nat,
            |sum: nat, r: RepoReport|
                sum + r.findings@.filter(|f: DepFinding| f.severity == severity).len(),
        ),
        remarks(reports) == reports.fold_left(
            0nat,
            |sum: nat, r: RepoReport|
                sum + r.sed_hacks@.len() + if r.has_ci_config && !r.uses_ci_prep {
                    1nat
                } else {
                    0nat
                },
        ),
    decreases reports.len(),
{
    if reports.len() > 0 {
        law_all_reports_count(reports.drop_last(), severity);
        law_severities_are_counted(reports.last().findings@, severity);
    }
}

/// How bad a report is: as bad as its worst finding, and that is an error where there is one.
pub proof fn law_worst_finding(findings: Seq<DepFinding>)
    ensures
        forall|i: int|
            0 <= i < findings.len()
                ==> (#[trigger] findings[i]).severity.level() <= worst(findings),
        findings.len() > 0 ==> exists|i: int|
            0 <= i < findings.len() && (#[trigger] findings[i]).severity.level() == worst(findings),
        findings.len() == 0 ==> worst(findings) == 0,
        Severity::Pass.level() < Severity::Info.level() < Severity::Warn.level()
            < Severity::Error.level(),
    decreases findings.len(),
{
    if findings.len() > 0 {
        let rest = findings.drop_last();
        law_worst_finding(rest);
        assert forall|i: int| 0 <= i < findings.len() implies (
        #[trigger] findings[i]).severity.level() <= worst(findings) by {
            if i < rest.len() {
                assert(rest[i] == findings[i]);
            }
        }
        if worst(findings) == findings.last().severity.level() {
            assert(findings[findings.len() - 1].severity.level() == worst(findings));
        } else {
            let i = choose|i: int|
                0 <= i < rest.len() && (#[trigger] rest[i]).severity.level() == worst(rest);
            assert(findings[i] == rest[i]);
        }
    }
}

/// A line of a workflow is told of where it runs sed on a manifest or on paths, by its file, its
/// number from one on and its text.
pub proof fn law_sed_lines(filename: Seq<char>, lines: Seq<Seq<char>>, i: int)
    requires
        0 <= i < lines.len(),
    ensures
        text::occurs(text::trim(lines[i]), "sed "@) && (text::occurs(
            text::trim(lines[i]),
            "Cargo.toml"@,
        ) || text::occurs(text::trim(lines[i]), "path"@)) ==> sed_hacks(filename, lines).contains(
            filename + ":"@ + text::decimal((i + 1) as nat) + ": "@ + text::trim(lines[i]),
        ),
        sed_hacks(filename, lines).len() <= lines.len(),
        (forall|j: int|
            0 <= j < lines.len() ==> !text::occurs(text::trim(#[trigger] lines[j]), "sed "@) || (
            !text::occurs(text::trim(lines[j]), "Cargo.toml"@) && !text::occurs(
                text::trim(lines[j]),
                "path"@,
            ))) ==> sed_hacks(filename, lines).len() == 0,
    decreases lines.len(),
{
    let rest = lines.drop_last();
    let before = sed_hacks(filename, rest);
    let line = text::trim(lines.last());
    assert(lines[lines.len() - 1] == lines.last());
    group::lemma_push_contains(
        before,
        filename + ":"@ + text::decimal(lines.len()) + ": "@ + line,
    );
    if i < rest.len() {
        law_sed_lines(filename, rest, i);
        assert(rest[i] == lines[i]);
        assert forall|j: int| 0 <= j < rest.len() implies rest[j] == lines[j] by {}
    } else if rest.len() > 0 {
        law_sed_lines(filename, rest, 0);
        assert forall|j: int| 0 <= j < rest.len() implies rest[j] == lines[j] by {}
    } else {
        assert(before.len() == 0);
    }
}

/// A repo that keeps a patch section is told of, unless a crate of it has settings that delete one.
/// No other finding is made up or lost.
pub proof fn law_kept_patches_are_told(
    r: RepoReport,
    dir: Seq<char>,
    deps: Seq<DepModel>,
    eco: Ecosystem,
    config: SuperworkConfig,
    published: TextMap<Option<String>>,
    signs: RepoSigns,
)
    requires
        is_report(r, dir, deps, eco, config, published, signs),
    ensures
        ({
            let deleted = exists|name: Seq<char>, i: int| #[trigger]
                eco.crates.has(name) && eco.crates@[name].repo_dir@ == dir
                    && eco.crates@[name].inline_ci is Some && 0 <= i
                    < eco.crates@[name].inline_ci.unwrap().delete_sections@.len() && text::occurs(
                    (#[trigger] eco.crates@[name].inline_ci.unwrap().delete_sections@[i])@,
                    "patch"@,
                );
            &&& r.findings@.len() == deps.len() + if signs.has_patch_section && !deleted {
                1int
            } else {
                0
            }
            &&& signs.has_patch_section && !deleted ==> r.findings@.last().severity
                == Severity::Warn && r.findings@.last().from_crate@ == dir
            &&& r.repo_dir@ == dir && r.sed_hacks == signs.sed_hacks && r.uses_ci_prep
                == signs.uses_ci_prep
        }),
{
    assert forall|name: Seq<char>, i: int| #[trigger]
        eco.crates.has(name) && eco.crates@[name].repo_dir@ == dir && eco.crates@[name].inline_ci
            is Some && 0 <= i < eco.crates@[name].inline_ci.unwrap().delete_sections@.len()
            && text::occurs(
            (#[trigger] eco.crates@[name].inline_ci.unwrap().delete_sections@[i])@,
            "patch"@,
        ) implies patch_deleted(eco, dir) by {
        assert(deletes_patch(eco.crates@[name].inline_ci.unwrap()));
    }
    if patch_deleted(eco, dir) {
        let name = choose|name: Seq<char>| #[trigger]
            eco.crates.has(name) && eco.crates@[name].repo_dir@ == dir
                && eco.crates@[name].inline_ci is Some && deletes_patch(
                eco.crates@[name].inline_ci.unwrap(),
            );
        let ovr = eco.crates@[name].inline_ci.unwrap();
        let i = choose|i: int|
            0 <= i < ovr.delete_sections@.len() && text::occurs(
                (#[trigger] ovr.delete_sections@[i])@,
                "patch"@,
            );
        assert(eco.crates.has(name));
        assert(text::occurs(
            eco.crates@[name].inline_ci.unwrap().delete_sections@[i]@,
            "patch"@,
        ));
    }
    assert(finding_models(r.findings@).len() == r.findings@.len());
    if signs.has_patch_section && !patch_deleted(eco, dir) {
        assert(finding_models(r.findings@).last() == r.findings@.last().model());
    }
}

/// A repo counts as having CI settings where one of its crates has some.
pub proof fn law_inline_settings_are_seen(eco: Ecosystem, name: Seq<char>, dir: Seq<char>)
    ensures
        eco.crates.has(name) && eco.crates@[name].inline_ci is Some ==> has_inline_ci(
            eco,
            eco.crates@[name].repo_dir@,
        ),
        has_inline_ci(eco, dir) ==> exists|n: Seq<char>| #[trigger]
            eco.crates.has(n) && eco.crates@[n].inline_ci is Some && eco.crates@[n].repo_dir@
                == dir,
{
}

/// A report is shown for any finding that is no pass, any line of sed and settings that nothing
/// uses; where everything is asked for, for any finding.
pub proof fn law_shown_reports(r: RepoReport, i: int)
    ensures
        0 <= i < r.findings@.len() && !(r.findings@[i].severity is Pass) ==> is_visible(r, false),
        0 <= i < r.findings@.len() ==> is_visible(r, true),
        r.sed_hacks@.len() > 0 ==> is_visible(r, false) && is_visible(r, true),
        r.has_ci_config && !r.uses_ci_prep ==> is_visible(r, false) && is_visible(r, true),
        r.findings@.len() == 0 && r.sed_hacks@.len() == 0 && (!r.has_ci_config || r.uses_ci_prep)
            ==> !is_visible(r, true),
{
}

/// The version that `cargo info` prints is the word behind the first `version:`.
pub proof fn law_first_version_counts(lines: Seq<Seq<char>>, i: int)
    requires
        0 <= i <= lines.len(),
    ensures
        match version_in(lines, i) {
            Some(v) => exists|k: int|
                i <= k < lines.len() && text::after_prefix(
                    text::trim(#[trigger] lines[k]),
                    "version:"@,
                ) is Some && v == text::leading_word(
                    text::trim(
                        text::after_prefix(text::trim(lines[k]), "version:"@).unwrap(),
                    ),
                ) && forall|j: int|
                    i <= j < k ==> text::after_prefix(
                        text::trim(#[trigger] lines[j]),
                        "version:"@,
                    ) is None,
            None => forall|j: int|
                i <= j < lines.len() ==> text::after_prefix(
                    text::trim(#[trigger] lines[j]),
                    "version:"@,
                ) is None,
        },
    decreases lines.len() - i,
{
    if i < lines.len() {
        law_first_version_counts(lines, i + 1);
        if text::after_prefix(text::trim(lines[i]), "version:"@) is None && version_in(lines, i + 1)
            is Some {
            let v = version_in(lines, i + 1).unwrap();
            let k = choose|k: int|
                i + 1 <= k < lines.len() && text::after_prefix(
                    text::trim(#[trigger] lines[k]),
                    "version:"@,
                ) is Some && v == text::leading_word(
                    text::trim(
                        text::after_prefix(text::trim(lines[k]), "version:"@).unwrap(),
                    ),
                ) && forall|j: int|
                    i + 1 <= j < k ==> text::after_prefix(
                        text::trim(#[trigger] lines[j]),
                        "version:"@,
                    ) is None;
            assert(text::trim(lines[k]) == text::trim(lines[k]));
            assert forall|j: int| i <= j < k implies text::after_prefix(
                text::trim(#[trigger] lines[j]),
                "version:"@,
            ) is None by {}
        }
    }
}

/// A workflow is a file with one of two extensions and something before it.
pub proof fn law_workflow_files(stem: Seq<char>, filename: Seq<char>)
    ensures
        stem.len() > 0 ==> is_workflow(stem + ".yml"@) && is_workflow(stem + ".yaml"@),
        is_workflow(filename) ==> (".yml"@.is_suffix_of(filename) || ".yaml"@.is_suffix_of(
            filename,
        )) && filename.len() > 4,
        !is_workflow(".yml"@) && !is_workflow(".yaml"@),
{
    reveal_strlit(".yml");
    reveal_strlit(".yaml");
    let a = stem + ".yml"@;
    let b = stem + ".yaml"@;
    assert(a.subrange(a.len() - ".yml"@.len(), a.len() as int) =~= ".yml"@);
    assert(b.subrange(b.len() - ".yaml"@.len(), b.len() as int) =~= ".yaml"@);
    assert(".yml"@.len() == 4 && ".yaml"@.len() == 5);
    assert(".yml"@.is_suffix_of(a));
    assert(".yaml"@.is_suffix_of(b));
    if ".yml"@.is_suffix_of(".yaml"@) {
        assert(".yaml"@.subrange(1, 5)[0] == ".yml"@[0]);
    }
}

/// The directory of a repo is that of its first crate's workspace, else that of the crate; without
/// a crate it lies under the root by its name.
pub proof fn law_repo_paths(root: Seq<char>, dir: Seq<char>, c: CrateInfo)
    ensures
        repo_path(root, dir, None) == path::joined(root, dir),
        (c.workspace_root matches Some(w) && path::parent(w@) is Some) ==> Some(
            repo_path(root, dir, Some(c)),
        ) == path::parent(c.workspace_root.unwrap()@),
        c.workspace_root is None && path::parent(c.manifest_path@) is Some ==> Some(
            repo_path(root, dir, Some(c)),
        ) == path::parent(c.manifest_path@),
{
}

} // verus!
