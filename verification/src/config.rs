//! The contents of `Superwork.toml`.

use vstd::prelude::*;
use vstd::string::*;

use crate::path;
use crate::text;
use crate::text_map::TextMap;

verus! {

broadcast use text::lemma_texts_push;

/// Top-level configuration.
pub struct SuperworkConfig {
    pub superworkspace: SuperworkspaceMeta,
    pub repo: Vec<RepoOverride>,
    pub unpublished: UnpublishedConfig,
    pub ci: CiConfig,
    pub checks: ChecksConfig,
    pub release: ReleaseConfig,
    /// The older name of the `superworkspace` section.
    pub ecosystem: Option<SuperworkspaceMeta>,
}

pub struct SuperworkspaceMeta {
    /// Display name for this superworkspace
    pub name: Option<String>,
    /// Default GitHub org for URL generation
    pub default_github_org: String,
    /// Additional directories to scan (relative to config file)
    pub extra_roots: Vec<String>,
    /// GitHub orgs/users that own crates in this superworkspace.
    /// Crates on crates.io whose `repository` URL doesn't match any of these
    /// are considered external forks (use crates.io version, don't publish).
    /// Empty stands for the default GitHub org alone.
    pub owned_orgs: Vec<String>,
}

/// The GitHub org where the configuration names none.
pub fn default_org() -> (r: String)
    ensures
        r@ == "imazen"@,
{
    "imazen".to_string()
}

impl Default for SuperworkspaceMeta {
    fn default() -> (r: Self)
        ensures
            r.name is None,
            r.default_github_org@ == "imazen"@,
            r.extra_roots@.len() == 0,
            r.owned_orgs@.len() == 0,
    {
        SuperworkspaceMeta {
            name: None,
            default_github_org: default_org(),
            extra_roots: Vec::new(),
            owned_orgs: Vec::new(),
        }
    }
}

/// Override for a repo whose GitHub URL differs from convention
pub struct RepoOverride {
    /// Directory relative to superworkspace root
    pub dir: String,
    /// GitHub "org/repo"
    pub github: Option<String>,
    /// If true, this repo has no remote
    pub no_remote: bool,
}

pub struct UnpublishedConfig {
    pub crates: Vec<String>,
}

pub struct CiConfig {
    pub default_strategy: CiStrategy,
    pub overrides: TextMap<CiCrateOverride>,
    /// Repos whose dependencies are patched in CI: directory name → GitHub URL.
    pub patch_repos: TextMap<String>,
}

#[derive(Debug, Clone, Copy, PartialEq, Eq, Structural)]
pub enum CiStrategy {
    GitUrl,
    StripPath,
    Delete,
}

impl Default for CiStrategy {
    fn default() -> (r: Self)
        ensures
            r == CiStrategy::GitUrl,
    {
        CiStrategy::GitUrl
    }
}

pub struct CiCrateOverride {
    pub default_strategy: Option<CiStrategy>,
    /// Deps that should use git_url strategy even when default is strip_path
    pub git_url_override: Vec<String>,
    pub delete: Vec<String>,
    pub delete_sections: Vec<String>,
    pub delete_members: Vec<String>,
    pub delete_workspace_deps: Vec<String>,
    pub delete_crate_deps: TextMap<Vec<String>>,
    pub strip_features: TextMap<Vec<String>>,
    pub blank_keys: TextMap<TextMap<String>>,
}

/// Named check commands that can be run across repos
pub struct ChecksConfig {
    /// Named checks: "test" = "cargo test", "clippy" = "cargo clippy ..."
    pub commands: TextMap<CheckDef>,
    /// Per-repo overrides for check commands
    pub repo_overrides: TextMap<TextMap<String>>,
}

/// A check can be a simple string command or a detailed definition
#[derive(Debug, Clone)]
pub enum CheckDef {
    Simple(String),
    Detailed {
        cmd: String,
        /// Only run on these crates (glob pattern)
        filter: Option<String>,
        /// Only run on publishable crates
        only_publishable: bool,
        /// Only run on crates changed since last tag
        only_changed: bool,
    },
}

impl CheckDef {
    /// The command line of the check.
    pub open spec fn line(self) -> Seq<char> {
        match self {
            CheckDef::Simple(s) => s@,
            CheckDef::Detailed { cmd, .. } => cmd@,
        }
    }

    pub fn command(&self) -> (r: &str)
        ensures
            r@ == self.line(),
    {
        match self {
            CheckDef::Simple(s) => s.as_str(),
            CheckDef::Detailed { cmd, .. } => cmd.as_str(),
        }
    }
}

/// Classification of a crate's release semantics
#[derive(Debug, Clone, Copy, PartialEq, Eq, Structural)]
pub enum CrateClass {
    /// Full semver analysis + coordinated release
    Library,
    /// Independently versioned, no semver-checks needed (CLI tools, etc.)
    Binary,
    /// Independently versioned, ABI stability matters (FFI crates)
    Abi,
}

impl Default for CrateClass {
    fn default() -> (r: Self)
        ensures
            r == CrateClass::Library,
    {
        CrateClass::Library
    }
}

impl CrateClass {
    pub open spec fn label(self) -> Seq<char> {
        match self {
            CrateClass::Library => "library"@,
            CrateClass::Binary => "binary"@,
            CrateClass::Abi => "abi"@,
        }
    }

    /// The class as it is written down.
    pub fn name(&self) -> (r: &'static str)
        ensures
            r@ == self.label(),
    {
        match self {
            CrateClass::Library => "library",
            CrateClass::Binary => "binary",
            CrateClass::Abi => "abi",
        }
    }

    /// The class that a text writes down.
    pub fn parse(s: &str) -> (r: Option<CrateClass>)
        ensures
            match r {
                Some(c) => c.label() == s@,
                None => forall|c: CrateClass| #[trigger] c.label() != s@,
            },
    {
        proof {
            reveal_strlit("library");
            reveal_strlit("binary");
            reveal_strlit("abi");
        }
        if text::same(s, "library") {
            Some(CrateClass::Library)
        } else if text::same(s, "binary") {
            Some(CrateClass::Binary)
        } else if text::same(s, "abi") {
            Some(CrateClass::Abi)
        } else {
            None
        }
    }
}

pub struct ReleaseConfig {
    /// Checks to run before publishing
    pub pre_publish: Vec<String>,
    /// Override crate classification (library/binary/abi)
    pub crate_class: TextMap<CrateClass>,
    /// Per-crate CI job failure allowlist (crate name → list of job name globs)
    pub ci_allow_failures: TextMap<Vec<String>>,
    /// Global CI job failure allowlist (job name globs)
    pub ci_allow_failures_global: Vec<String>,
    /// Cross-compilation targets for local testing
    pub local_targets: Vec<String>,
    /// Seconds to wait for crates.io index propagation after publish (default: 30)
    pub index_wait_secs: u64,
}

/// Seconds to wait for the index where the configuration says nothing.
pub fn default_index_wait() -> (r: u64)
    ensures
        r == 30,
{
    30
}

impl Default for ReleaseConfig {
    fn default() -> (r: Self)
        ensures
            r.pre_publish@.len() == 0,
            r.crate_class.keys().len() == 0,
            r.ci_allow_failures.keys().len() == 0,
            r.ci_allow_failures_global@.len() == 0,
            r.local_targets@.len() == 0,
            r.index_wait_secs == 30,
    {
        ReleaseConfig {
            pre_publish: Vec::new(),
            crate_class: TextMap::new(),
            ci_allow_failures: TextMap::new(),
            ci_allow_failures_global: Vec::new(),
            local_targets: Vec::new(),
            index_wait_secs: default_index_wait(),
        }
    }
}

// ── What the settings mean ──

impl SuperworkConfig {
    /// The section that describes the superworkspace.
    pub open spec fn described(self) -> SuperworkspaceMeta {
        if self.superworkspace.name is Some || self.superworkspace.extra_roots@.len() > 0 {
            self.superworkspace
        } else if let Some(eco) = self.ecosystem {
            eco
        } else {
            self.superworkspace
        }
    }

    /// Whether the entry at `i` settles the URL of a repo.
    pub open spec fn settles(self, i: int, repo_dir: Seq<char>) -> bool {
        self.repo@[i].dir@ == repo_dir && (self.repo@[i].no_remote || self.repo@[i].github is Some)
    }

    /// The first entry from `i` on that settles the URL of a repo.
    pub open spec fn settling(self, i: int, repo_dir: Seq<char>) -> Option<int>
        decreases self.repo@.len() - i,
    {
        if i >= self.repo@.len() {
            None
        } else if self.settles(i, repo_dir) {
            Some(i)
        } else {
            self.settling(i + 1, repo_dir)
        }
    }

    /// The GitHub URL of a repo.
    pub open spec fn url_of(self, repo_dir: Seq<char>) -> Option<Seq<char>> {
        match self.settling(0, repo_dir) {
            Some(i) => if self.repo@[i].no_remote {
                None
            } else {
                Some("https://github.com/"@ + self.repo@[i].github.unwrap()@)
            },
            None => {
                let base = match path::file_name(repo_dir) {
                    Some(n) => n,
                    None => repo_dir,
                };
                Some(
                    "https://github.com/"@ + self.described().default_github_org@ + "/"@ + base,
                )
            },
        }
    }

    /// The strategy for a dependency: inline settings first, then the central ones.
    pub open spec fn strategy_of(
        self,
        crate_name: Seq<char>,
        dep_name: Seq<char>,
        inline: Option<&CiCrateOverride>,
    ) -> CiStrategy {
        if inline is Some && text::lists(inline.unwrap().delete@, dep_name) {
            CiStrategy::Delete
        } else if inline is Some && text::lists(inline.unwrap().git_url_override@, dep_name) {
            CiStrategy::GitUrl
        } else if inline is Some && inline.unwrap().default_strategy is Some {
            inline.unwrap().default_strategy.unwrap()
        } else if self.ci.overrides.has(crate_name) {
            let central = self.ci.overrides@[crate_name];
            if text::lists(central.delete@, dep_name) {
                CiStrategy::Delete
            } else if text::lists(central.git_url_override@, dep_name) {
                CiStrategy::GitUrl
            } else if let Some(s) = central.default_strategy {
                s
            } else {
                self.ci.default_strategy
            }
        } else {
            self.ci.default_strategy
        }
    }

    /// The command of a named check in a repo.
    pub open spec fn command_of(self, check: Seq<char>, repo_dir: Seq<char>) -> Option<Seq<char>> {
        let per_repo = self.checks.repo_overrides;
        if per_repo.has(repo_dir) && per_repo@[repo_dir].has(check) {
            Some(per_repo@[repo_dir]@[check]@)
        } else if self.checks.commands.has(check) {
            Some(self.checks.commands@[check].line())
        } else {
            None
        }
    }

    /// Resolve the superworkspace meta, accepting either [superworkspace] or [ecosystem]
    pub fn meta(&self) -> (r: &SuperworkspaceMeta)
        ensures
            *r == self.described(),
    {
        if self.superworkspace.name.is_some() || self.superworkspace.extra_roots.len() > 0 {
            &self.superworkspace
        } else if let Some(eco) = &self.ecosystem {
            eco
        } else {
            &self.superworkspace
        }
    }

    /// Get CI strategy for a dep, checking inline metadata first, then central config.
    pub fn ci_strategy_for(
        &self,
        crate_name: &str,
        dep_name: &str,
        inline: Option<&CiCrateOverride>,
    ) -> (r: CiStrategy)
        ensures
            r == self.strategy_of(crate_name@, dep_name@, inline),
    {
        if let Some(ovr) = inline {
            if text::holds(&ovr.delete, dep_name) {
                return CiStrategy::Delete;
            }
            if text::holds(&ovr.git_url_override, dep_name) {
                return CiStrategy::GitUrl;
            }
            if let Some(s) = ovr.default_strategy {
                return s;
            }
        }
        if let Some(ovr) = self.ci.overrides.get(crate_name) {
            if text::holds(&ovr.delete, dep_name) {
                return CiStrategy::Delete;
            }
            if text::holds(&ovr.git_url_override, dep_name) {
                return CiStrategy::GitUrl;
            }
            match ovr.default_strategy {
                Some(s) => s,
                None => self.ci.default_strategy,
            }
        } else {
            self.ci.default_strategy
        }
    }

    /// The inline and the central settings for a crate, where there are any.
    pub open spec fn override_of<'a>(
        &'a self,
        crate_name: Seq<char>,
        inline: Option<&'a CiCrateOverride>,
    ) -> Option<MergedCiOverride<'a>> {
        if self.ci.overrides.has(crate_name) {
            Some(MergedCiOverride { inline, central: Some(&self.ci.overrides@[crate_name]) })
        } else if inline is Some {
            Some(MergedCiOverride { inline, central: None })
        } else {
            None
        }
    }

    /// Get the merged CI override for a crate (inline + central, inline wins)
    pub fn ci_override_for<'a>(
        &'a self,
        crate_name: &str,
        inline: Option<&'a CiCrateOverride>,
    ) -> (r: Option<MergedCiOverride<'a>>)
        ensures
            r == self.override_of(crate_name@, inline),
    {
        let central = self.ci.overrides.get(crate_name);
        if inline.is_none() && central.is_none() {
            return None;
        }
        Some(MergedCiOverride { inline, central })
    }

    /// The GitHub URL of a repo: its own entry first, then the convention.
    pub fn github_url_for(&self, repo_dir: &str) -> (r: Option<String>)
        ensures
            match r {
                Some(u) => self.url_of(repo_dir@) == Some(u@),
                None => self.url_of(repo_dir@) is None,
            },
    {
        let mut i: usize = 0;
        while i < self.repo.len()
            invariant
                i <= self.repo.len(),
                self.settling(i as int, repo_dir@) == self.settling(0, repo_dir@),
            decreases self.repo.len() - i,
        {
            let entry = &self.repo[i];
            if text::same(entry.dir.as_str(), repo_dir) {
                if entry.no_remote {
                    return None;
                }
                if let Some(gh) = &entry.github {
                    let mut url = "https://github.com/".to_string();
                    url.append(gh.as_str());
                    return Some(url);
                }
            }
            i += 1;
        }
        let mut url = "https://github.com/".to_string();
        url.append(self.meta().default_github_org.as_str());
        url.append("/");
        match path::file_name_of(repo_dir) {
            Some(base) => url.append(base.as_str()),
            None => url.append(repo_dir),
        }
        Some(url)
    }

    /// Get the list of GitHub orgs/users that own crates in this superworkspace.
    pub fn owned_orgs(&self) -> (r: Vec<String>)
        ensures
            text::texts(r@) == (if self.described().owned_orgs@.len() == 0 {
                seq![self.described().default_github_org@]
            } else {
                text::texts(self.described().owned_orgs@)
            }),
    {
        let meta = self.meta();
        if meta.owned_orgs.len() == 0 {
            let mut out: Vec<String> = Vec::new();
            out.push(meta.default_github_org.clone());
            assert(text::texts(out@) =~= seq![meta.default_github_org@]);
            out
        } else {
            copies(&meta.owned_orgs)
        }
    }

    /// Where the extra roots are looked for.
    pub fn extra_root_paths(&self, superworkspace_root: &str) -> (r: Vec<String>)
        ensures
            r.len() == self.described().extra_roots.len(),
            forall|i: int|
                0 <= i < r.len() ==> (#[trigger] r@[i])@ == path::joined(
                    superworkspace_root@,
                    self.described().extra_roots@[i]@,
                ),
    {
        let extra = &self.meta().extra_roots;
        let mut out: Vec<String> = Vec::new();
        let mut i: usize = 0;
        while i < extra.len()
            invariant
                i <= extra.len(),
                out.len() == i,
                forall|j: int|
                    0 <= j < i ==> (#[trigger] out@[j])@ == path::joined(
                        superworkspace_root@,
                        extra@[j]@,
                    ),
            decreases extra.len() - i,
        {
            out.push(path::join_path(superworkspace_root, extra[i].as_str()));
            i += 1;
        }
        out
    }

    /// The directories to scan: the root itself, then each extra root that exists,
    /// given what each of them resolves to.
    pub fn scan_roots(&self, superworkspace_root: &str, resolved: &Vec<Option<String>>) -> (r: Vec<
        String,
    >)
        ensures
            text::texts(r@) == seq![superworkspace_root@] + found(resolved@),
    {
        let mut roots: Vec<String> = Vec::new();
        roots.push(superworkspace_root.to_string());
        let mut i: usize = 0;
        assert(resolved@.take(0) =~= Seq::empty());
        assert(text::texts(roots@) =~= seq![superworkspace_root@] + found(resolved@.take(0)));
        while i < resolved.len()
            invariant
                i <= resolved.len(),
                text::texts(roots@) == seq![superworkspace_root@] + found(
                    resolved@.take(i as int),
                ),
            decreases resolved.len() - i,
        {
            assert(resolved@.take(i + 1).drop_last() =~= resolved@.take(i as int));
            if let Some(dir) = &resolved[i] {
                roots.push(dir.clone());
            }
            i += 1;
        }
        assert(resolved@.take(i as int) =~= resolved@);
        roots
    }

    /// Get the command for a named check, with per-repo override support
    pub fn check_command(&self, check_name: &str, repo_dir: &str) -> (r: Option<String>)
        ensures
            match r {
                Some(c) => self.command_of(check_name@, repo_dir@) == Some(c@),
                None => self.command_of(check_name@, repo_dir@) is None,
            },
    {
        if let Some(overrides) = self.checks.repo_overrides.get(repo_dir) {
            if let Some(cmd) = overrides.get(check_name) {
                return Some(cmd.clone());
            }
        }
        match self.checks.commands.get(check_name) {
            Some(d) => Some(d.command().to_string()),
            None => None,
        }
    }
}

/// The texts that are there, in order.
pub open spec fn found(v: Seq<Option<String>>) -> Seq<Seq<char>>
    decreases v.len(),
{
    if v.len() == 0 {
        Seq::empty()
    } else if let Some(s) = v.last() {
        found(v.drop_last()).push(s@)
    } else {
        found(v.drop_last())
    }
}

/// A copy of a list of texts.
pub fn copies(v: &Vec<String>) -> (r: Vec<String>)
    ensures
        text::texts(r@) == text::texts(v@),
{
    let mut out: Vec<String> = Vec::new();
    let mut i: usize = 0;
    while i < v.len()
        invariant
            i <= v.len(),
            out.len() == i,
            forall|j: int| 0 <= j < i ==> (#[trigger] out@[j])@ == v@[j]@,
        decreases v.len() - i,
    {
        out.push(v[i].clone());
        i += 1;
    }
    assert(text::texts(out@) =~= text::texts(v@));
    out
}

/// Merged view of inline (per-repo) + central CI overrides
pub struct MergedCiOverride<'a> {
    pub inline: Option<&'a CiCrateOverride>,
    pub central: Option<&'a CiCrateOverride>,
}

impl<'a> MergedCiOverride<'a> {
    /// The settings that count: the inline ones where there are any.
    pub open spec fn chosen(self) -> Option<&'a CiCrateOverride> {
        if self.inline is Some {
            self.inline
        } else {
            self.central
        }
    }

    fn pick(&self) -> (r: Option<&'a CiCrateOverride>)
        ensures
            r == self.chosen(),
    {
        if self.inline.is_some() {
            self.inline
        } else {
            self.central
        }
    }

    /// The sections to delete: the inline list, or the central one where that is empty.
    pub open spec fn sections(self) -> Seq<String> {
        if self.inline is Some && self.inline.unwrap().delete_sections@.len() > 0 {
            self.inline.unwrap().delete_sections@
        } else if self.central is Some {
            self.central.unwrap().delete_sections@
        } else {
            Seq::empty()
        }
    }

    /// The workspace members to delete.
    pub open spec fn members(self) -> Seq<String> {
        if self.chosen() is Some {
            self.chosen().unwrap().delete_members@
        } else {
            Seq::empty()
        }
    }

    /// The entries of `[workspace.dependencies]` to delete.
    pub open spec fn workspace_deps(self) -> Seq<String> {
        if self.chosen() is Some {
            self.chosen().unwrap().delete_workspace_deps@
        } else {
            Seq::empty()
        }
    }

    /// The sections to delete: the inline list, or the central one where that is empty.
    pub fn delete_sections(&self) -> (r: &'a [String])
        ensures
            r@ == self.sections(),
    {
        if let Some(ovr) = self.inline {
            if ovr.delete_sections.len() > 0 {
                return ovr.delete_sections.as_slice();
            }
        }
        match self.central {
            Some(c) => c.delete_sections.as_slice(),
            None => &[],
        }
    }

    pub fn delete_members(&self) -> (r: &'a [String])
        ensures
            r@ == self.members(),
    {
        match self.pick() {
            Some(o) => o.delete_members.as_slice(),
            None => &[],
        }
    }

    pub fn delete_workspace_deps(&self) -> (r: &'a [String])
        ensures
            r@ == self.workspace_deps(),
    {
        match self.pick() {
            Some(o) => o.delete_workspace_deps.as_slice(),
            None => &[],
        }
    }

    /// The dependencies to delete crate by crate, where there are settings.
    pub fn delete_crate_deps(&self) -> (r: Option<&'a TextMap<Vec<String>>>)
        ensures
            r is Some == self.chosen() is Some,
            r is Some ==> *r.unwrap() == self.chosen().unwrap().delete_crate_deps,
    {
        match self.pick() {
            Some(o) => Some(&o.delete_crate_deps),
            None => None,
        }
    }

    /// The features to strip crate by crate, where there are settings.
    pub fn strip_features(&self) -> (r: Option<&'a TextMap<Vec<String>>>)
        ensures
            r is Some == self.chosen() is Some,
            r is Some ==> *r.unwrap() == self.chosen().unwrap().strip_features,
    {
        match self.pick() {
            Some(o) => Some(&o.strip_features),
            None => None,
        }
    }

    /// The keys to overwrite crate by crate, where there are settings.
    pub fn blank_keys(&self) -> (r: Option<&'a TextMap<TextMap<String>>>)
        ensures
            r is Some == self.chosen() is Some,
            r is Some ==> *r.unwrap() == self.chosen().unwrap().blank_keys,
    {
        match self.pick() {
            Some(o) => Some(&o.blank_keys),
            None => None,
        }
    }
}

/// Inline settings come before central ones, and the central default comes last. Among the settings
/// of one place, deletion comes before the git URL, and both before the strategy set there.
pub proof fn law_strategies(
    config: SuperworkConfig,
    crate_name: Seq<char>,
    dep_name: Seq<char>,
    inline: Option<&CiCrateOverride>,
)
    ensures
        ({
            let strategy = config.strategy_of(crate_name, dep_name, inline);
            let says_nothing = inline is None || (!text::texts(inline.unwrap().delete@).contains(
                dep_name,
            ) && !text::texts(inline.unwrap().git_url_override@).contains(dep_name)
                && inline.unwrap().default_strategy is None);
            let central = config.ci.overrides@[crate_name];
            &&& inline matches Some(o) ==> {
                &&& text::texts(o.delete@).contains(dep_name) ==> strategy == CiStrategy::Delete
                &&& !text::texts(o.delete@).contains(dep_name) && text::texts(
                    o.git_url_override@,
                ).contains(dep_name) ==> strategy == CiStrategy::GitUrl
                &&& !text::texts(o.delete@).contains(dep_name) && !text::texts(
                    o.git_url_override@,
                ).contains(dep_name) && o.default_strategy is Some ==> Some(strategy)
                    == o.default_strategy
            }
            &&& says_nothing && !config.ci.overrides.has(crate_name) ==> strategy
                == config.ci.default_strategy
            &&& says_nothing && config.ci.overrides.has(crate_name) ==> {
                &&& text::texts(central.delete@).contains(dep_name) ==> strategy
                    == CiStrategy::Delete
                &&& !text::texts(central.delete@).contains(dep_name) && text::texts(
                    central.git_url_override@,
                ).contains(dep_name) ==> strategy == CiStrategy::GitUrl
                &&& !text::texts(central.delete@).contains(dep_name) && !text::texts(
                    central.git_url_override@,
                ).contains(dep_name) ==> strategy == (match central.default_strategy {
                    Some(s) => s,
                    None => config.ci.default_strategy,
                })
            }
        }),
{
    if let Some(o) = inline {
        text::lemma_lists_texts(o.delete@, dep_name);
        text::lemma_lists_texts(o.git_url_override@, dep_name);
    }
    if config.ci.overrides.has(crate_name) {
        let central = config.ci.overrides@[crate_name];
        text::lemma_lists_texts(central.delete@, dep_name);
        text::lemma_lists_texts(central.git_url_override@, dep_name);
    }
}

/// The first entry that settles a URL is one of the repo with a GitHub name or none, and none
/// before it is.
pub proof fn lemma_settling(config: SuperworkConfig, i: int, dir: Seq<char>)
    requires
        0 <= i <= config.repo@.len(),
    ensures
        match config.settling(i, dir) {
            Some(k) => i <= k < config.repo@.len() && config.repo@[k].dir@ == dir && (
            config.repo@[k].no_remote || config.repo@[k].github is Some) && forall|j: int|
                i <= j < k ==> (#[trigger] config.repo@[j]).dir@ != dir
                    || !(config.repo@[j].no_remote
                    || config.repo@[j].github is Some),
            None => forall|j: int|
                i <= j < config.repo@.len() ==> (#[trigger] config.repo@[j]).dir@ != dir || !(
                config.repo@[j].no_remote || config.repo@[j].github is Some),
        },
    decreases config.repo@.len() - i,
{
    if i < config.repo@.len() {
        lemma_settling(config, i + 1, dir);
    }
}

/// The entry of a repo decides on its URL: one without a remote has none, whatever else is said
/// there, and one with a GitHub name goes by that. A repo without such an entry lies under the
/// default org, by the last name of its path, or by the whole path where that ends in no name.
pub proof fn law_urls(config: SuperworkConfig, dir: Seq<char>, i: int)
    requires
        0 <= i < config.repo@.len() ==> config.repo@[i].dir@ == dir && forall|j: int|
            0 <= j < i ==> (#[trigger] config.repo@[j]).dir@ != dir || (!config.repo@[j].no_remote
                && config.repo@[j].github is None),
    ensures
        0 <= i < config.repo@.len() && config.repo@[i].no_remote ==> config.url_of(dir) is None,
        0 <= i < config.repo@.len() && !config.repo@[i].no_remote && config.repo@[i].github is Some
            ==> config.url_of(dir)
                == Some("https://github.com/"@ + config.repo@[i].github.unwrap()@),
        (forall|j: int|
            0 <= j < config.repo@.len() ==> (#[trigger] config.repo@[j]).dir@ != dir || (
            !config.repo@[j].no_remote && config.repo@[j].github is None)) ==> config.url_of(dir)
            == Some(
            "https://github.com/"@ + config.described().default_github_org@ + "/"@ + (
            match path::file_name(dir) {
                Some(n) => n,
                None => dir,
            }),
        ),
{
    lemma_settling(config, 0, dir);
}

/// The section of the new name counts as soon as it says something; the one of the old name counts
/// where it does not.
pub proof fn law_old_section_steps_in(config: SuperworkConfig)
    ensures
        config.superworkspace.name is Some ==> config.described() == config.superworkspace,
        config.superworkspace.extra_roots@.len() > 0 ==> config.described()
            == config.superworkspace,
        config.ecosystem is None ==> config.described() == config.superworkspace,
        config.superworkspace.name is None && config.superworkspace.extra_roots@.len() == 0
            && config.ecosystem is Some ==> config.described() == config.ecosystem.unwrap(),
{
}

/// A check's command in a repo is the one set for that repo, else the one set for all; where
/// neither is set there is none.
pub proof fn law_repo_commands_come_first(
    config: SuperworkConfig,
    check: Seq<char>,
    dir: Seq<char>,
)
    ensures
        ({
            let own = config.checks.repo_overrides;
            let set_here = own.has(dir) && own@[dir].has(check);
            &&& set_here ==> config.command_of(check, dir) == Some(own@[dir]@[check]@)
            &&& !set_here && config.checks.commands.has(check) ==> config.command_of(check, dir)
                == Some(
                match config.checks.commands@[check] {
                    CheckDef::Simple(s) => s@,
                    CheckDef::Detailed { cmd, .. } => cmd@,
                },
            )
            &&& !set_here && !config.checks.commands.has(check) ==> config.command_of(check, dir)
                is None
        }),
{
}

/// Inline settings replace the central ones whole, but for the sections to delete: there an empty
/// inline list leaves the central one in force.
pub proof fn law_inline_settings_come_first(
    config: SuperworkConfig,
    crate_name: Seq<char>,
    inline: Option<&CiCrateOverride>,
)
    ensures
        ({
            let has_central = config.ci.overrides.has(crate_name);
            let central = config.ci.overrides@[crate_name];
            let merged = config.override_of(crate_name, inline);
            &&& merged is Some <==> has_central || inline is Some
            &&& merged matches Some(m) ==> {
                &&& inline matches Some(o) ==> m.members() == o.delete_members@
                    && m.workspace_deps() == o.delete_workspace_deps@ && m.chosen() == Some(o)
                &&& inline is None ==> m.members() == central.delete_members@
                    && m.workspace_deps() == central.delete_workspace_deps@ && m.chosen() == Some(
                    &central,
                )
                &&& inline is Some && inline.unwrap().delete_sections@.len() > 0 ==> m.sections()
                    == inline.unwrap().delete_sections@
                &&& (inline is None || inline.unwrap().delete_sections@.len() == 0) && has_central
                    ==> m.sections() == central.delete_sections@
            }
        }),
{
}

/// The roots to scan besides the first are all those that were found, in order.
pub proof fn law_found_texts(v: Seq<Option<String>>)
    ensures
        found(v) == v.filter(
            |s: Option<String>| s is Some,
        ).map_values(
            |s: Option<String>| s.unwrap()@,
        ),
    decreases v.len(),
{
    reveal(Seq::filter);
    if v.len() > 0 {
        law_found_texts(v.drop_last());
    }
}

} // verus!
