//! Release orchestration: per-repo analyses and the wave that takes a release through its tiers.

use vstd::prelude::*;
use vstd::string::*;

use crate::config::{CrateClass, SuperworkConfig};
use crate::discover::{CrateInfo, Ecosystem, InternalDep};
use crate::glob;
use crate::group;
use crate::path;
use crate::text;
use crate::text_map::TextMap;

verus! {

broadcast use text::lemma_texts_push;

// ── Commands ──

/// The release subcommands.
pub enum ReleaseCommand {
    /// Drive a full release wave: bump → commit → push → tag → CI → publish, tier by tier
    Wave { advance: bool },
    /// Scan ecosystem and generate per-repo release analysis files
    Init { force: bool },
    /// Show uncategorized crates to review and categorize
    Analyze { tier: Option<usize>, uncategorized: bool },
    /// Write the categorization of a crate
    Categorize { name: String, category: String, bump: String, reason: Option<String> },
    /// Run cargo semver-checks (and optionally copter) for a tier
    Check { tier: Option<usize>, copter: bool },
    /// Run local tests: native, cross targets, clippy, fmt
    LocalTest { tier: Option<usize>, target: Option<String>, lint_only: bool },
    /// Apply version bumps from categorization decisions
    Bump { tier: Option<usize> },
    /// Create git tags and GitHub releases for a tier
    Tag { tier: usize },
    /// Check CI status for a tier, applying allowlist
    CiStatus { tier: Option<usize> },
    /// Publish crates for a tier (requires tags + CI passed)
    Publish { tier: usize },
    /// Show full release status table
    Status,
    /// Suggest what to do next
    Next,
}

/// What a release subcommand does to the world.
#[derive(Debug, Clone, Copy, PartialEq, Eq, Structural)]
pub enum Effect {
    /// It looks and reports.
    ReadOnly,
    /// It changes nothing, as asked.
    DryRun,
    /// It changes files, repos or the registry.
    Live,
}

/// Whether a subcommand only looks and reports.
pub open spec fn only_reads(command: ReleaseCommand) -> bool {
    command is Analyze || command is CiStatus || command is Status || command is Next || command
        is LocalTest
}

/// What a release subcommand may do when it is run: in a dry run it changes nothing.
pub fn run(command: &ReleaseCommand, dry_run: bool) -> (r: Effect)
    ensures
        r == (if only_reads(*command) {
            Effect::ReadOnly
        } else if dry_run {
            Effect::DryRun
        } else {
            Effect::Live
        }),
        dry_run ==> r != Effect::Live,
{
    match command {
        ReleaseCommand::Analyze { .. } => Effect::ReadOnly,
        ReleaseCommand::LocalTest { .. } => Effect::ReadOnly,
        ReleaseCommand::CiStatus { .. } => Effect::ReadOnly,
        ReleaseCommand::Status => Effect::ReadOnly,
        ReleaseCommand::Next => Effect::ReadOnly,
        _ => if dry_run {
            Effect::DryRun
        } else {
            Effect::Live
        },
    }
}

// ── Per-repo analysis ──

pub struct RepoAnalysis {
    pub schema_version: u32,
    pub superworkspace: String,
    pub generated_at: String,
    pub crates: TextMap<CrateAnalysis>,
}

pub struct CrateAnalysis {
    // Git analysis
    pub head: String,
    pub tag: String,
    pub tag_found: bool,
    pub version: String,
    pub class: String,
    pub tier: Option<usize>,
    pub dependents: usize,
    pub files_changed: usize,
    pub lines_added: usize,
    pub lines_removed: usize,
    pub src_files_changed: usize,
    pub commit_count: usize,
    pub commit_subjects: Vec<String>,
    // Categorization
    pub category: String,
    pub bump: String,
    pub reason: String,
    pub needs_review: bool,
    // Check results
    pub semver_check: String,
    pub copter: String,
}

impl CrateAnalysis {
    /// Whether the release leaves the crate out.
    pub open spec fn skipped(self) -> bool {
        self.bump@ == "skip"@ || self.category@ == "skip"@
    }

    /// Whether the crate takes part in the release and its bump is decided.
    pub open spec fn active(self) -> bool {
        !self.skipped() && self.bump@.len() > 0
    }

    /// Whether the release leaves the crate out.
    pub fn is_skipped(&self) -> (r: bool)
        ensures
            r == self.skipped(),
    {
        text::same(self.bump.as_str(), "skip") || text::same(self.category.as_str(), "skip")
    }

    /// Whether the crate takes part in the release and its bump is decided.
    pub fn is_active(&self) -> (r: bool)
        ensures
            r == self.active(),
    {
        !self.is_skipped() && !self.bump.as_str().is_empty()
    }
}

/// Whether an analysis of the crate says that it takes part.
pub open spec fn takes_part(analyses: TextMap<CrateAnalysis>, name: Seq<char>) -> bool {
    analyses.has(name) && !analyses@[name].skipped()
}

/// Whether an analysis of the crate says that its bump is decided.
pub open spec fn is_decided(analyses: TextMap<CrateAnalysis>, name: Seq<char>) -> bool {
    analyses.has(name) && analyses@[name].active()
}

/// The names of a tier that take part in the release.
pub open spec fn participants(
    analyses: TextMap<CrateAnalysis>,
    level: Seq<String>,
) -> Seq<Seq<char>>
    decreases level.len(),
{
    if level.len() == 0 {
        Seq::empty()
    } else if takes_part(analyses, level.last()@) {
        participants(analyses, level.drop_last()).push(level.last()@)
    } else {
        participants(analyses, level.drop_last())
    }
}

/// The names of a tier whose bump is decided.
pub open spec fn decided(analyses: TextMap<CrateAnalysis>, level: Seq<String>) -> Seq<Seq<char>>
    decreases level.len(),
{
    if level.len() == 0 {
        Seq::empty()
    } else if is_decided(analyses, level.last()@) {
        decided(analyses, level.drop_last()).push(level.last()@)
    } else {
        decided(analyses, level.drop_last())
    }
}

/// The names of a tier that take part in the release.
pub fn tier_participants(analyses: &TextMap<CrateAnalysis>, level: &Vec<String>) -> (r: Vec<String>)
    ensures
        text::texts(r@) == participants(*analyses, level@),
{
    let mut out: Vec<String> = Vec::new();
    let mut i: usize = 0;
    assert(level@.take(0) =~= Seq::<String>::empty());
    assert(text::texts(out@) =~= participants(*analyses, level@.take(0)));
    while i < level.len()
        invariant
            i <= level.len(),
            text::texts(out@) == participants(*analyses, level@.take(i as int)),
        decreases level.len() - i,
    {
        assert(level@.take(i + 1).drop_last() =~= level@.take(i as int));
        if let Some(a) = analyses.get(level[i].as_str()) {
            if !a.is_skipped() {
                out.push(level[i].clone());
            }
        }
        i += 1;
    }
    assert(level@.take(i as int) =~= level@);
    out
}

/// The names of a tier whose bump is decided.
pub fn tier_decided(analyses: &TextMap<CrateAnalysis>, level: &Vec<String>) -> (r: Vec<String>)
    ensures
        text::texts(r@) == decided(*analyses, level@),
{
    let mut out: Vec<String> = Vec::new();
    let mut i: usize = 0;
    assert(level@.take(0) =~= Seq::<String>::empty());
    assert(text::texts(out@) =~= decided(*analyses, level@.take(0)));
    while i < level.len()
        invariant
            i <= level.len(),
            text::texts(out@) == decided(*analyses, level@.take(i as int)),
        decreases level.len() - i,
    {
        assert(level@.take(i + 1).drop_last() =~= level@.take(i as int));
        if let Some(a) = analyses.get(level[i].as_str()) {
            if a.is_active() {
                out.push(level[i].clone());
            }
        }
        i += 1;
    }
    assert(level@.take(i as int) =~= level@);
    out
}

// ── Wave state ──

#[derive(Debug, Clone, Copy, PartialEq, Eq, Structural)]
pub enum TierStatus {
    Pending,
    Bumped,
    Pushed,
    Tagged,
    CiWatching,
    CiPassed,
    Publishing,
    Published,
}

impl TierStatus {
    /// How far the tier has come.
    pub open spec fn rank(self) -> int {
        match self {
            TierStatus::Pending => 0,
            TierStatus::Bumped => 1,
            TierStatus::Pushed => 2,
            TierStatus::Tagged => 3,
            TierStatus::CiWatching => 4,
            TierStatus::CiPassed => 5,
            TierStatus::Publishing => 6,
            TierStatus::Published => 7,
        }
    }

    pub open spec fn label(self) -> Seq<char> {
        match self {
            TierStatus::Pending => "pending"@,
            TierStatus::Bumped => "bumped"@,
            TierStatus::Pushed => "pushed"@,
            TierStatus::Tagged => "tagged"@,
            TierStatus::CiWatching => "ci_watching"@,
            TierStatus::CiPassed => "ci_passed"@,
            TierStatus::Publishing => "publishing"@,
            TierStatus::Published => "published"@,
        }
    }

    /// The status as it is written down.
    pub fn name(&self) -> (r: &'static str)
        ensures
            r@ == self.label(),
    {
        match self {
            TierStatus::Pending => "pending",
            TierStatus::Bumped => "bumped",
            TierStatus::Pushed => "pushed",
            TierStatus::Tagged => "tagged",
            TierStatus::CiWatching => "ci_watching",
            TierStatus::CiPassed => "ci_passed",
            TierStatus::Publishing => "publishing",
            TierStatus::Published => "published",
        }
    }

    /// The status that a text writes down.
    pub open spec fn named(s: Seq<char>) -> Option<TierStatus> {
        if s == "pending"@ {
            Some(TierStatus::Pending)
        } else if s == "bumped"@ {
            Some(TierStatus::Bumped)
        } else if s == "pushed"@ {
            Some(TierStatus::Pushed)
        } else if s == "tagged"@ {
            Some(TierStatus::Tagged)
        } else if s == "ci_watching"@ {
            Some(TierStatus::CiWatching)
        } else if s == "ci_passed"@ {
            Some(TierStatus::CiPassed)
        } else if s == "publishing"@ {
            Some(TierStatus::Publishing)
        } else if s == "published"@ {
            Some(TierStatus::Published)
        } else {
            None
        }
    }

    /// The status that a text writes down.
    pub fn parse(s: &str) -> (r: Option<TierStatus>)
        ensures
            r == TierStatus::named(s@),
    {
        if text::same(s, "pending") {
            Some(TierStatus::Pending)
        } else if text::same(s, "bumped") {
            Some(TierStatus::Bumped)
        } else if text::same(s, "pushed") {
            Some(TierStatus::Pushed)
        } else if text::same(s, "tagged") {
            Some(TierStatus::Tagged)
        } else if text::same(s, "ci_watching") {
            Some(TierStatus::CiWatching)
        } else if text::same(s, "ci_passed") {
            Some(TierStatus::CiPassed)
        } else if text::same(s, "publishing") {
            Some(TierStatus::Publishing)
        } else if text::same(s, "published") {
            Some(TierStatus::Published)
        } else {
            None
        }
    }
}

/// A status is read back as it was written.
pub proof fn law_status_reads_back(s: TierStatus)
    ensures
        TierStatus::named(s.label()) == Some(s),
{
    reveal_strlit("pending");
    reveal_strlit("bumped");
    reveal_strlit("pushed");
    reveal_strlit("tagged");
    reveal_strlit("ci_watching");
    reveal_strlit("ci_passed");
    reveal_strlit("publishing");
    reveal_strlit("published");
    assert("pending"@[2] == 'n');
    assert("bumped"@[0] == 'b');
    assert("pushed"@[1] == 'u' && "pushed"@[2] == 's');
    assert("tagged"@[0] == 't');
    assert("publishing"@.len() == 10 && "published"@.len() == 9 && "ci_passed"@.len() == 9);
    assert("ci_passed"@[0] == 'c' && "published"@[0] == 'p');
    assert("pending"@.len() == 7 && "pushed"@.len() == 6 && "bumped"@.len() == 6);
    assert("tagged"@.len() == 6 && "ci_watching"@.len() == 11);
    assert("pushed"@[0] == 'p');
}

pub struct WaveState {
    pub started_at: String,
    pub workspace: String,
    pub tiers: TextMap<TierState>,
}

pub struct TierState {
    pub status: String,
    pub crates: Vec<String>,
    /// GitHub Actions run IDs per repo (repo_dir → run_id)
    pub ci_runs: TextMap<String>,
    /// CI conclusions per repo
    pub ci_results: TextMap<String>,
}

impl Default for TierState {
    fn default() -> (r: Self)
        ensures
            r.status@.len() == 0,
            r.crates@.len() == 0,
            r.ci_runs@ == Map::<Seq<char>, String>::empty(),
            r.ci_results@ == Map::<Seq<char>, String>::empty(),
    {
        TierState {
            status: String::new(),
            crates: Vec::new(),
            ci_runs: TextMap::new(),
            ci_results: TextMap::new(),
        }
    }
}

impl Default for WaveState {
    fn default() -> (r: Self)
        ensures
            r.started_at@.len() == 0,
            r.workspace@.len() == 0,
            r.tiers@ == Map::<Seq<char>, TierState>::empty(),
    {
        WaveState { started_at: String::new(), workspace: String::new(), tiers: TextMap::new() }
    }
}

/// The key of a tier.
pub open spec fn tier_key(tier: int) -> Seq<char> {
    text::decimal(tier as nat)
}

/// The status of a tier: what is written down, or pending.
pub open spec fn status_of(wave: WaveState, tier: int) -> TierStatus {
    if wave.tiers.has(tier_key(tier)) {
        match TierStatus::named(wave.tiers@[tier_key(tier)].status@) {
            Some(s) => s,
            None => TierStatus::Pending,
        }
    } else {
        TierStatus::Pending
    }
}

/// The crates of a tier.
pub open spec fn crates_of(wave: WaveState, tier: int) -> Seq<Seq<char>> {
    if wave.tiers.has(tier_key(tier)) {
        text::texts(wave.tiers@[tier_key(tier)].crates@)
    } else {
        Seq::empty()
    }
}

/// The status of a tier: what is written down, or pending.
pub fn tier_status(wave: &WaveState, tier: usize) -> (r: TierStatus)
    ensures
        r == status_of(*wave, tier as int),
{
    let key = text::decimal_of(tier as u64);
    match wave.tiers.get(key.as_str()) {
        Some(t) => match TierStatus::parse(t.status.as_str()) {
            Some(s) => s,
            None => TierStatus::Pending,
        },
        None => TierStatus::Pending,
    }
}

/// The crates of a tier.
pub fn tier_crates(wave: &WaveState, tier: usize) -> (r: Vec<String>)
    ensures
        text::texts(r@) == crates_of(*wave, tier as int),
{
    let key = text::decimal_of(tier as u64);
    match wave.tiers.get(key.as_str()) {
        Some(t) => crate::config::copies(&t.crates),
        None => {
            let none: Vec<String> = Vec::new();
            assert(text::texts(none@) =~= Seq::<Seq<char>>::empty());
            none
        },
    }
}

/// Whether `now` is `was` with a tier's status set; the crates are set where there were none.
pub open spec fn status_set(
    was: WaveState,
    now: WaveState,
    tier: int,
    status: TierStatus,
    crates: Seq<Seq<char>>,
) -> bool {
    let key = tier_key(tier);
    &&& now.started_at == was.started_at
    &&& now.workspace == was.workspace
    &&& now.tiers@.dom() == was.tiers@.dom().insert(key)
    &&& forall|k: Seq<char>| k != key && was.tiers.has(k) ==> #[trigger] now.tiers@[k]
        == was.tiers@[k]
    &&& now.tiers@[key].status@ == status.label()
    &&& text::texts(now.tiers@[key].crates@) == (if crates_of(was, tier).len() == 0 {
        crates
    } else {
        crates_of(was, tier)
    })
    &&& was.tiers.has(key) ==> now.tiers@[key].ci_runs == was.tiers@[key].ci_runs
        && now.tiers@[key].ci_results == was.tiers@[key].ci_results
    &&& !was.tiers.has(key) ==> now.tiers@[key].ci_runs@ == Map::<Seq<char>, String>::empty()
        && now.tiers@[key].ci_results@ == Map::<Seq<char>, String>::empty()
}

/// Set the status of a tier, and its crates where it has none.
pub fn set_tier_status(
    wave: &mut WaveState,
    tier: usize,
    status: TierStatus,
    crates: &Vec<String>,
)
    ensures
        status_set(*old(wave), *final(wave), tier as int, status, text::texts(crates@)),
{
    let key = text::decimal_of(tier as u64);
    let mut ts = match wave.tiers.remove(key.as_str()) {
        Some(t) => t,
        None => TierState::default(),
    };
    ts.status = status.name().to_string();
    if ts.crates.len() == 0 && crates.len() > 0 {
        ts.crates = crate::config::copies(crates);
    }
    proof {
        assert(text::texts(ts.crates@).len() == ts.crates@.len());
        assert(text::texts(crates@).len() == crates@.len());
        assert(crates@.len() == 0 && ts.crates@.len() == 0 ==> text::texts(ts.crates@)
            =~= text::texts(crates@));
    }
    wave.tiers.insert(key, ts);
    assert(wave.tiers@.dom() =~= old(wave).tiers@.dom().insert(tier_key(tier as int)));
}

// ── The wave ──

/// Whether a tier still has work to do.
pub open spec fn is_open(wave: WaveState, tier: int) -> bool {
    crates_of(wave, tier).len() > 0 && status_of(wave, tier) != TierStatus::Published
}

/// The first tier from `k` on, below `n`, that still has work to do.
pub open spec fn first_open(wave: WaveState, k: int, n: int) -> Option<int>
    decreases n - k,
{
    if k >= n {
        None
    } else if is_open(wave, k) {
        Some(k)
    } else {
        first_open(wave, k + 1, n)
    }
}

/// The first of `n` tiers that still has work to do.
pub fn next_tier(wave: &WaveState, n: usize) -> (r: Option<usize>)
    ensures
        match r {
            Some(k) => first_open(*wave, 0, n as int) == Some(k as int) && k < n && is_open(
                *wave,
                k as int,
            ),
            None => first_open(*wave, 0, n as int) is None,
        },
{
    let mut k: usize = 0;
    while k < n
        invariant
            k <= n,
            first_open(*wave, k as int, n as int) == first_open(*wave, 0, n as int),
        decreases n - k,
    {
        let crates = tier_crates(wave, k);
        assert(text::texts(crates@).len() == crates.len());
        if crates.len() > 0 && tier_status(wave, k) != TierStatus::Published {
            return Some(k);
        }
        k += 1;
    }
    None
}

/// What the wave does next for a tier.
#[derive(Debug, Clone, Copy, PartialEq, Eq, Structural)]
pub enum WaveStep {
    /// Bump versions and commit.
    Bump,
    /// Push to the remotes.
    Push,
    /// Create tags and releases.
    Tag,
    /// Look at CI.
    CheckCi,
    /// Publish.
    Publish,
    /// Publish again after an interruption.
    RetryPublish,
}

/// How CI stands for a whole tier.
#[derive(Debug, Clone, Copy, PartialEq, Eq, Structural)]
pub enum CiOutcome {
    Passed,
    Failed,
    Running,
}

/// The step that a status calls for.
pub open spec fn step_for(status: TierStatus) -> Option<WaveStep> {
    match status {
        TierStatus::Pending => Some(WaveStep::Bump),
        TierStatus::Bumped => Some(WaveStep::Push),
        TierStatus::Pushed => Some(WaveStep::Tag),
        TierStatus::Tagged => Some(WaveStep::CheckCi),
        TierStatus::CiWatching => Some(WaveStep::CheckCi),
        TierStatus::CiPassed => Some(WaveStep::Publish),
        TierStatus::Publishing => Some(WaveStep::RetryPublish),
        TierStatus::Published => None,
    }
}

/// The status while the step is under way.
pub open spec fn status_during(status: TierStatus) -> TierStatus {
    if status == TierStatus::CiPassed {
        TierStatus::Publishing
    } else {
        status
    }
}

/// The status once the step is done; CI decides only where it is looked at.
pub open spec fn status_after(status: TierStatus, ci: CiOutcome) -> TierStatus {
    match step_for(status) {
        Some(WaveStep::Bump) => TierStatus::Bumped,
        Some(WaveStep::Push) => TierStatus::Pushed,
        Some(WaveStep::Tag) => TierStatus::Tagged,
        Some(WaveStep::CheckCi) => match ci {
            CiOutcome::Passed => TierStatus::CiPassed,
            CiOutcome::Failed => status,
            CiOutcome::Running => TierStatus::CiWatching,
        },
        Some(WaveStep::Publish) => TierStatus::Published,
        Some(WaveStep::RetryPublish) => TierStatus::Published,
        None => status,
    }
}

/// The step that a status calls for.
pub fn next_step(status: TierStatus) -> (r: Option<WaveStep>)
    ensures
        r == step_for(status),
{
    match status {
        TierStatus::Pending => Some(WaveStep::Bump),
        TierStatus::Bumped => Some(WaveStep::Push),
        TierStatus::Pushed => Some(WaveStep::Tag),
        TierStatus::Tagged => Some(WaveStep::CheckCi),
        TierStatus::CiWatching => Some(WaveStep::CheckCi),
        TierStatus::CiPassed => Some(WaveStep::Publish),
        TierStatus::Publishing => Some(WaveStep::RetryPublish),
        TierStatus::Published => None,
    }
}

/// The status while the step is under way.
pub fn during(status: TierStatus) -> (r: TierStatus)
    ensures
        r == status_during(status),
{
    if status == TierStatus::CiPassed {
        TierStatus::Publishing
    } else {
        status
    }
}

/// The status once the step is done.
pub fn after(status: TierStatus, ci: CiOutcome) -> (r: TierStatus)
    ensures
        r == status_after(status, ci),
{
    match next_step(status) {
        Some(WaveStep::Bump) => TierStatus::Bumped,
        Some(WaveStep::Push) => TierStatus::Pushed,
        Some(WaveStep::Tag) => TierStatus::Tagged,
        Some(WaveStep::CheckCi) => match ci {
            CiOutcome::Passed => TierStatus::CiPassed,
            CiOutcome::Failed => status,
            CiOutcome::Running => TierStatus::CiWatching,
        },
        Some(WaveStep::Publish) => TierStatus::Published,
        Some(WaveStep::RetryPublish) => TierStatus::Published,
        None => status,
    }
}

/// What the wave is to do when it is advanced.
pub struct WaveAction {
    pub tier: usize,
    pub status: TierStatus,
    pub step: WaveStep,
}

/// Decide what the wave does next, and mark the tier where the step calls for it.
/// `None` means that all tiers are published. A dry run marks nothing.
pub fn begin_step(wave: &mut WaveState, n: usize, dry_run: bool) -> (r: Option<WaveAction>)
    ensures
        dry_run ==> *final(wave) == *old(wave),
        match r {
            Some(a) => first_open(*old(wave), 0, n as int) == Some(a.tier as int) && a.status
                == status_of(*old(wave), a.tier as int) && Some(a.step) == step_for(a.status)
                && if a.status == TierStatus::CiPassed && !dry_run {
                status_set(
                    *old(wave),
                    *final(wave),
                    a.tier as int,
                    TierStatus::Publishing,
                    crates_of(*old(wave), a.tier as int),
                )
            } else {
                *final(wave) == *old(wave)
            },
            None => first_open(*old(wave), 0, n as int) is None && *final(wave) == *old(wave),
        },
{
    let tier = match next_tier(wave, n) {
        Some(k) => k,
        None => return None,
    };
    let status = tier_status(wave, tier);
    let step = match next_step(status) {
        Some(s) => s,
        None => return None,
    };
    let under_way = during(status);
    if under_way != status && !dry_run {
        let crates = tier_crates(wave, tier);
        set_tier_status(wave, tier, under_way, &crates);
    }
    Some(WaveAction { tier, status, step })
}

/// Mark the tier once the step is done, given how CI stands where it was looked at.
/// Where CI failed the tier stays as it is, and in a dry run it stays in any case.
pub fn finish_step(
    wave: &mut WaveState,
    action: &WaveAction,
    ci: CiOutcome,
    dry_run: bool,
) -> (r: TierStatus)
    ensures
        dry_run ==> *final(wave) == *old(wave),
        r == status_after(action.status, ci),
        if r == action.status || dry_run {
            *final(wave) == *old(wave)
        } else {
            status_set(
                *old(wave),
                *final(wave),
                action.tier as int,
                r,
                crates_of(*old(wave), action.tier as int),
            )
        },
{
    let status = after(action.status, ci);
    if status != action.status && !dry_run {
        let crates = tier_crates(wave, action.tier);
        set_tier_status(wave, action.tier, status, &crates);
    }
    status
}

/// A tier never falls back.
pub proof fn law_wave_never_falls_back(status: TierStatus, ci: CiOutcome)
    ensures
        status_after(status, ci).rank() >= status.rank(),
        status_during(status).rank() >= status.rank(),
{
}

/// A tier is published only from a state in which CI has passed, and it gets there only where
/// CI passed.
pub proof fn law_publish_needs_ci(status: TierStatus, ci: CiOutcome)
    ensures
        status_after(status, ci) == TierStatus::Published ==> status.rank()
            >= TierStatus::CiPassed.rank(),
        status_after(status, ci) == TierStatus::CiPassed && status != TierStatus::CiPassed ==> ci
            == CiOutcome::Passed,
{
}

/// The wave goes tier by tier: where a tier is next, every tier before it is published or has no
/// crates.
pub proof fn law_tiers_in_order(wave: WaveState, n: int, tier: int)
    requires
        first_open(wave, 0, n) == Some(tier),
    ensures
        0 <= tier < n,
        is_open(wave, tier),
        forall|t: int| 0 <= t < tier ==> !#[trigger] is_open(wave, t),
{
    lemma_first_open(wave, 0, n);
}

proof fn lemma_first_open(wave: WaveState, k: int, n: int)
    ensures
        first_open(wave, k, n) matches Some(t) ==> k <= t < n && is_open(wave, t) && forall|u: int|
            k <= u < t ==> !#[trigger] is_open(wave, u),
    decreases n - k,
{
    if k < n && !is_open(wave, k) {
        lemma_first_open(wave, k + 1, n);
    }
}

/// Setting the status of a tier is read back, and leaves every other tier as it was.
pub proof fn law_status_set_reads_back(
    was: WaveState,
    now: WaveState,
    tier: int,
    status: TierStatus,
    crates: Seq<Seq<char>>,
    other: int,
)
    requires
        status_set(was, now, tier, status, crates),
        0 <= tier,
        0 <= other,
    ensures
        status_of(now, tier) == status,
        other != tier ==> status_of(now, other) == status_of(was, other) && crates_of(now, other)
            == crates_of(was, other),
{
    law_status_reads_back(status);
    assert(now.tiers@.dom().contains(tier_key(tier)));
    if other != tier {
        if tier_key(other) == tier_key(tier) {
            text::lemma_decimal_injective(other as nat, tier as nat);
        }
        assert(now.tiers@.dom().contains(tier_key(other)) == was.tiers@.dom().contains(
            tier_key(other),
        ));
    }
}

/// The status after `n` steps with the same CI outcome.
pub open spec fn after_steps(status: TierStatus, ci: CiOutcome, n: nat) -> TierStatus
    decreases n,
{
    if n == 0 {
        status
    } else {
        status_after(after_steps(status, ci, (n - 1) as nat), ci)
    }
}

/// Where CI passes, at most six steps take a tier from the start to the end.
pub proof fn law_wave_completes(status: TierStatus)
    ensures
        after_steps(status, CiOutcome::Passed, 6) == TierStatus::Published,
{
    reveal_with_fuel(after_steps, 7);
}

/// Note when a wave was started and for which workspace, where that is not yet known.
pub fn start_wave(wave: &mut WaveState, now: &str, workspace: &str)
    ensures
        final(wave).tiers == old(wave).tiers,
        old(wave).started_at@.len() == 0 ==> final(wave).started_at@ == now@
            && final(wave).workspace@ == workspace@,
        old(wave).started_at@.len() > 0 ==> *final(wave) == *old(wave),
{
    if wave.started_at.as_str().is_empty() {
        wave.started_at = now.to_string();
        wave.workspace = workspace.to_string();
    }
}

/// The wave to write down: none in a dry run, so that what is stored stays as it was.
pub fn wave_to_store(wave: &WaveState, dry_run: bool) -> (r: Option<&WaveState>)
    ensures
        r == (if dry_run {
            None
        } else {
            Some(wave)
        }),
{
    if dry_run {
        None
    } else {
        Some(wave)
    }
}

/// Whether `now` is `was` with each tier that has decided crates and was unknown set up.
pub open spec fn tiers_set_up(
    was: WaveState,
    now: WaveState,
    levels: Seq<Vec<String>>,
    analyses: TextMap<CrateAnalysis>,
) -> bool {
    &&& now.started_at == was.started_at
    &&& now.workspace == was.workspace
    &&& forall|t: int|
        0 <= t < levels.len() ==> tier_set_up(was, now, t, decided(analyses, #[trigger] levels[t]@))
    &&& forall|k: Seq<char>| #[trigger]
        is_foreign(k, levels.len() as int) ==> now.tiers.has(k) == was.tiers.has(k) && (
        was.tiers.has(k) ==> now.tiers@[k] == was.tiers@[k])
}

/// Whether a key is that of none of the first `n` tiers.
pub open spec fn is_foreign(k: Seq<char>, n: int) -> bool {
    forall|t: int| 0 <= t < n ==> k != #[trigger] tier_key(t)
}

/// Whether a tier stays as it was or, where it was unknown and has crates, is set up.
pub open spec fn tier_set_up(was: WaveState, now: WaveState, t: int, crates: Seq<Seq<char>>) -> bool {
    let key = tier_key(t);
    if was.tiers.has(key) {
        now.tiers.has(key) && now.tiers@[key] == was.tiers@[key]
    } else if crates.len() == 0 {
        !now.tiers.has(key)
    } else {
        &&& now.tiers.has(key)
        &&& now.tiers@[key].status@ == TierStatus::Pending.label()
        &&& text::texts(now.tiers@[key].crates@) == crates
        &&& now.tiers@[key].ci_runs@ == Map::<Seq<char>, String>::empty()
        &&& now.tiers@[key].ci_results@ == Map::<Seq<char>, String>::empty()
    }
}

/// Set up the tiers that have decided crates and are not yet known to the wave.
pub fn init_tiers(
    wave: &mut WaveState,
    levels: &Vec<Vec<String>>,
    analyses: &TextMap<CrateAnalysis>,
)
    ensures
        tiers_set_up(*old(wave), *final(wave), levels@, *analyses),
{
    let ghost was = *old(wave);
    let mut t: usize = 0;
    while t < levels.len()
        invariant
            t <= levels.len(),
            wave.started_at == was.started_at,
            wave.workspace == was.workspace,
            forall|u: int|
                0 <= u < t ==> tier_set_up(
                    was,
                    *wave,
                    u,
                    decided(*analyses, #[trigger] levels@[u]@),
                ),
            forall|k: Seq<char>| #[trigger]
                is_foreign(k, t as int) ==> wave.tiers.has(k) == was.tiers.has(k) && (
                was.tiers.has(k) ==> wave.tiers@[k] == was.tiers@[k]),
        decreases levels.len() - t,
    {
        let active = tier_decided(analyses, &levels[t]);
        let key = text::decimal_of(t as u64);
        let ghost mid = *wave;
        proof {
            assert(text::texts(active@).len() == active.len());
            assert forall|u: int| 0 <= u < t implies tier_key(t as int) != #[trigger] tier_key(
                u,
            ) by {
                if tier_key(t as int) == tier_key(u) {
                    text::lemma_decimal_injective(t as nat, u as nat);
                }
            }
            assert(is_foreign(tier_key(t as int), t as int));
            assert forall|k: Seq<char>| #[trigger] is_foreign(k, t + 1) implies k != tier_key(
                t as int,
            ) && is_foreign(k, t as int) by {}
        }
        if active.len() > 0 && !wave.tiers.contains_key(key.as_str()) {
            set_tier_status(wave, t, TierStatus::Pending, &active);
            proof {
                assert forall|u: int| 0 <= u < t implies tier_set_up(
                    was,
                    *wave,
                    u,
                    decided(*analyses, #[trigger] levels@[u]@),
                ) by {
                    assert(tier_key(u) != tier_key(t as int));
                    assert(tier_set_up(was, mid, u, decided(*analyses, levels@[u]@)));
                    assert(wave.tiers.has(tier_key(u)) == mid.tiers.has(tier_key(u))) by {
                        assert(wave.tiers@.dom().contains(tier_key(u))
                            == mid.tiers@.dom().contains(tier_key(u)));
                    }
                }
                assert(crates_of(mid, t as int) =~= Seq::<Seq<char>>::empty());
                assert(tier_set_up(was, *wave, t as int, decided(*analyses, levels@[t as int]@)))
                    by {
                    assert(wave.tiers@.dom().contains(tier_key(t as int)));
                }
                assert forall|k: Seq<char>| #[trigger] is_foreign(k, t + 1) implies wave.tiers.has(
                    k,
                ) == was.tiers.has(k) && (was.tiers.has(k) ==> wave.tiers@[k] == was.tiers@[k]) by {
                    assert(is_foreign(k, t as int));
                    assert(wave.tiers@.dom().contains(k) == mid.tiers@.dom().contains(k));
                }
            }
        } else {
            assert(tier_set_up(was, *wave, t as int, decided(*analyses, levels@[t as int]@)));
        }
        t += 1;
    }
}

// ── CI ──

/// How CI stands for one repo.
#[derive(Debug, Clone, Copy, PartialEq, Eq, Structural)]
pub enum CiVerdict {
    Pending,
    Passed,
    Allowed,
    Failed,
}

/// Whether a conclusion means that CI is not done.
pub open spec fn is_unfinished(conclusion: Seq<char>) -> bool {
    conclusion.len() == 0 || conclusion == "null"@ || conclusion == "in_progress"@ || conclusion
        == "queued"@
}

/// What a conclusion means while the wave waits for CI.
pub open spec fn verdict_of(conclusion: Seq<char>, allowlist: Seq<String>) -> CiVerdict {
    if is_unfinished(conclusion) {
        CiVerdict::Pending
    } else if conclusion == "success"@ {
        CiVerdict::Passed
    } else if glob::matches_any(allowlist, conclusion) {
        CiVerdict::Allowed
    } else {
        CiVerdict::Failed
    }
}

/// What a conclusion means while the wave waits for CI.
pub fn ci_verdict(conclusion: &str, allowlist: &Vec<String>) -> (r: CiVerdict)
    ensures
        r == verdict_of(conclusion@, allowlist@),
{
    if conclusion.is_empty() || text::same(conclusion, "null") || text::same(
        conclusion,
        "in_progress",
    ) || text::same(conclusion, "queued") {
        CiVerdict::Pending
    } else if text::same(conclusion, "success") {
        CiVerdict::Passed
    } else if glob::glob_list_match(allowlist, conclusion) {
        CiVerdict::Allowed
    } else {
        CiVerdict::Failed
    }
}

/// The patterns that the settings allow for a list of crates: the global ones, then those of each
/// crate.
pub open spec fn allowed_patterns(config: SuperworkConfig, crates: Seq<String>) -> Seq<Seq<char>>
    decreases crates.len(),
{
    if crates.len() == 0 {
        text::texts(config.release.ci_allow_failures_global@)
    } else {
        let before = allowed_patterns(config, crates.drop_last());
        let name = crates.last()@;
        if config.release.ci_allow_failures.has(name) {
            before + text::texts(config.release.ci_allow_failures@[name]@)
        } else {
            before
        }
    }
}

/// The patterns that the settings allow for the crates of a repo.
pub fn allowlist_for(config: &SuperworkConfig, crates: &Vec<String>) -> (r: Vec<String>)
    ensures
        text::texts(r@) == allowed_patterns(*config, crates@),
{
    let mut out = crate::config::copies(&config.release.ci_allow_failures_global);
    let mut i: usize = 0;
    assert(crates@.take(0) =~= Seq::<String>::empty());
    while i < crates.len()
        invariant
            i <= crates.len(),
            text::texts(out@) == allowed_patterns(*config, crates@.take(i as int)),
        decreases crates.len() - i,
    {
        assert(crates@.take(i + 1).drop_last() =~= crates@.take(i as int));
        if let Some(list) = config.release.ci_allow_failures.get(crates[i].as_str()) {
            let mut more = crate::config::copies(list);
            let ghost was = out@;
            let ghost added = more@;
            out.append(&mut more);
            assert(text::texts(out@) =~= text::texts(was) + text::texts(added));
        }
        i += 1;
    }
    assert(crates@.take(i as int) =~= crates@);
    out
}

/// How CI stands for a tier: running while one repo is, else failed where one repo has.
pub open spec fn outcome_of(verdicts: Seq<CiVerdict>) -> CiOutcome {
    if exists|i: int| 0 <= i < verdicts.len() && (#[trigger] verdicts[i]) == CiVerdict::Pending {
        CiOutcome::Running
    } else if exists|i: int|
        0 <= i < verdicts.len() && (#[trigger] verdicts[i]) == CiVerdict::Failed {
        CiOutcome::Failed
    } else {
        CiOutcome::Passed
    }
}

/// How CI stands for a tier.
pub fn ci_outcome(verdicts: &Vec<CiVerdict>) -> (r: CiOutcome)
    ensures
        r == outcome_of(verdicts@),
{
    let mut all_done = true;
    let mut all_passed = true;
    let mut i: usize = 0;
    while i < verdicts.len()
        invariant
            i <= verdicts.len(),
            all_done == (forall|j: int|
                0 <= j < i ==> (#[trigger] verdicts@[j]) != CiVerdict::Pending),
            all_passed == (forall|j: int|
                0 <= j < i ==> (#[trigger] verdicts@[j]) != CiVerdict::Failed),
        decreases verdicts.len() - i,
    {
        if verdicts[i] == CiVerdict::Pending {
            all_done = false;
        }
        if verdicts[i] == CiVerdict::Failed {
            all_passed = false;
        }
        i += 1;
    }
    if !all_done {
        CiOutcome::Running
    } else if !all_passed {
        CiOutcome::Failed
    } else {
        CiOutcome::Passed
    }
}

/// Only the conclusion `success` passes. An unfinished run is pending, and any other conclusion
/// fails unless a pattern allows it.
pub proof fn law_only_success_passes(conclusion: Seq<char>, allowlist: Seq<String>)
    ensures
        verdict_of(conclusion, allowlist) == CiVerdict::Passed <==> conclusion == "success"@,
        verdict_of(conclusion, allowlist) == CiVerdict::Pending <==> conclusion == ""@ || conclusion
            == "null"@ || conclusion == "in_progress"@ || conclusion == "queued"@,
        verdict_of(conclusion, allowlist) == CiVerdict::Allowed ==> exists|i: int|
            0 <= i < allowlist.len() && glob::matches_end_star(
                (#[trigger] allowlist[i])@,
                conclusion,
            ),
        conclusion != "success"@ && conclusion != ""@ && conclusion != "null"@ && conclusion
            != "in_progress"@ && conclusion != "queued"@ && (forall|i: int|
            0 <= i < allowlist.len() ==> !glob::matches_end_star(
                (#[trigger] allowlist[i])@,
                conclusion,
            )) ==> verdict_of(conclusion, allowlist) == CiVerdict::Failed,
{
    reveal_strlit("");
    reveal_strlit("success");
    reveal_strlit("null");
    reveal_strlit("in_progress");
    reveal_strlit("queued");
    assert(conclusion.len() == 0 ==> conclusion =~= ""@);
    assert("success"@.len() == 7 && "null"@.len() == 4 && "in_progress"@.len() == 11);
    assert("queued"@.len() == 6 && ""@.len() == 0);
}

/// A tier comes to have passed CI exactly where the latest run of each of its repos ended in
/// `success` or in a conclusion that is allowed for the repo; one repo that is still running keeps
/// the tier waiting, and one that failed keeps it where it is.
pub proof fn law_tier_passes_with_all_repos(
    status: TierStatus,
    conclusions: Seq<Seq<char>>,
    allowlists: Seq<Seq<String>>,
    verdicts: Seq<CiVerdict>,
)
    requires
        status == TierStatus::Tagged || status == TierStatus::CiWatching,
        conclusions.len() == verdicts.len(),
        allowlists.len() == verdicts.len(),
        forall|i: int|
            0 <= i < verdicts.len() ==> #[trigger] verdicts[i] == verdict_of(
                conclusions[i],
                allowlists[i],
            ),
    ensures
        status_after(status, outcome_of(verdicts)) == TierStatus::CiPassed <==> forall|i: int|
            0 <= i < conclusions.len() ==> (#[trigger] conclusions[i] == "success"@ || (
            conclusions[i] != ""@ && conclusions[i] != "null"@ && conclusions[i] != "in_progress"@
                && conclusions[i] != "queued"@ && exists|k: int|
                0 <= k < allowlists[i].len() && glob::matches_end_star(
                    (#[trigger] allowlists[i][k])@,
                    conclusions[i],
                ))),
        status_after(status, outcome_of(verdicts)) == TierStatus::CiWatching ==> status
            == TierStatus::CiWatching || exists|i: int|
            0 <= i < conclusions.len() && (#[trigger] conclusions[i] == ""@ || conclusions[i]
                == "null"@ || conclusions[i] == "in_progress"@ || conclusions[i] == "queued"@),
        status_after(status, outcome_of(verdicts)) == TierStatus::CiPassed || status_after(
            status,
            outcome_of(verdicts),
        ) == TierStatus::CiWatching || status_after(status, outcome_of(verdicts)) == status,
{
    assert forall|i: int| 0 <= i < verdicts.len() implies {
        &&& verdicts[i] == CiVerdict::Passed <==> (#[trigger] conclusions[i]) == "success"@
        &&& verdicts[i] == CiVerdict::Pending <==> conclusions[i] == ""@ || conclusions[i]
            == "null"@ || conclusions[i] == "in_progress"@ || conclusions[i] == "queued"@
        &&& verdicts[i] == CiVerdict::Allowed ==> exists|k: int|
            0 <= k < allowlists[i].len() && glob::matches_end_star(
                (#[trigger] allowlists[i][k])@,
                conclusions[i],
            )
        &&& verdicts[i] == CiVerdict::Failed ==> forall|k: int|
            0 <= k < allowlists[i].len() ==> !glob::matches_end_star(
                (#[trigger] allowlists[i][k])@,
                conclusions[i],
            )
    } by {
        law_only_success_passes(conclusions[i], allowlists[i]);
        assert(verdicts[i] == verdict_of(conclusions[i], allowlists[i]));
    }
    if outcome_of(verdicts) == CiOutcome::Passed {
        assert forall|i: int| 0 <= i < conclusions.len() implies (#[trigger] conclusions[i]
            == "success"@ || (conclusions[i] != ""@ && conclusions[i] != "null"@ && conclusions[i]
            != "in_progress"@ && conclusions[i] != "queued"@ && exists|k: int|
            0 <= k < allowlists[i].len() && glob::matches_end_star(
                (#[trigger] allowlists[i][k])@,
                conclusions[i],
            ))) by {
            assert(verdicts[i] != CiVerdict::Pending && verdicts[i] != CiVerdict::Failed);
        }
    } else if outcome_of(verdicts) == CiOutcome::Running {
        let i = choose|i: int|
            0 <= i < verdicts.len() && (#[trigger] verdicts[i]) == CiVerdict::Pending;
        assert(conclusions[i] == conclusions[i]);
        reveal_strlit("");
        reveal_strlit("success");
        reveal_strlit("null");
        reveal_strlit("in_progress");
        reveal_strlit("queued");
        assert("success"@.len() == 7 && "null"@.len() == 4 && "in_progress"@.len() == 11);
        assert("queued"@.len() == 6 && ""@.len() == 0);
    } else {
        let i = choose|i: int|
            0 <= i < verdicts.len() && (#[trigger] verdicts[i]) == CiVerdict::Failed;
        assert(conclusions[i] == conclusions[i]);
    }
}

/// What a conclusion means in the status overview.
#[derive(Debug, Clone, Copy, PartialEq, Eq, Structural)]
pub enum CiLabel {
    Pass,
    AllowedFailure,
    Pending,
    Blocking,
}

/// Whether the settings allow a conclusion for one of the crates.
pub open spec fn is_allowed(
    config: SuperworkConfig,
    crates: Seq<String>,
    conclusion: Seq<char>,
) -> bool {
    glob::matches_any(config.release.ci_allow_failures_global@, conclusion) || exists|i: int|
        0 <= i < crates.len() && allows(config, (#[trigger] crates[i])@, conclusion)
}

/// Whether the settings of a crate allow a conclusion.
pub open spec fn allows(config: SuperworkConfig, name: Seq<char>, conclusion: Seq<char>) -> bool {
    config.release.ci_allow_failures.has(name) && glob::matches_any(
        config.release.ci_allow_failures@[name]@,
        conclusion,
    )
}

/// What a conclusion means in the status overview.
pub open spec fn label_of(
    config: SuperworkConfig,
    crates: Seq<String>,
    conclusion: Seq<char>,
) -> CiLabel {
    if conclusion == "success"@ {
        CiLabel::Pass
    } else if is_allowed(config, crates, conclusion) {
        CiLabel::AllowedFailure
    } else if conclusion.len() == 0 || conclusion == "null"@ {
        CiLabel::Pending
    } else {
        CiLabel::Blocking
    }
}

/// What a conclusion means in the status overview.
pub fn ci_label(config: &SuperworkConfig, crates: &Vec<String>, conclusion: &str) -> (r: CiLabel)
    ensures
        r == label_of(*config, crates@, conclusion@),
{
    if text::same(conclusion, "success") {
        return CiLabel::Pass;
    }
    let mut allowed = glob::glob_list_match(&config.release.ci_allow_failures_global, conclusion);
    let mut i: usize = 0;
    while i < crates.len() && !allowed
        invariant
            i <= crates.len(),
            allowed == (glob::matches_any(
                config.release.ci_allow_failures_global@,
                conclusion@,
            ) || exists|j: int|
                0 <= j < i && allows(*config, (#[trigger] crates@[j])@, conclusion@)),
        decreases crates.len() - i,
    {
        if let Some(list) = config.release.ci_allow_failures.get(crates[i].as_str()) {
            if glob::glob_list_match(list, conclusion) {
                assert(allows(*config, crates@[i as int]@, conclusion@));
                allowed = true;
            }
        }
        i += 1;
    }
    if allowed {
        CiLabel::AllowedFailure
    } else if conclusion.is_empty() || text::same(conclusion, "null") {
        CiLabel::Pending
    } else {
        CiLabel::Blocking
    }
}

/// The run ID that a query printed, where there is one.
pub fn run_id_in(stdout: &str) -> (r: Option<String>)
    ensures
        text::opt(r) == (if text::trim(stdout@).len() > 0 && text::trim(stdout@) != "null"@ {
            Some(text::trim(stdout@))
        } else {
            None
        }),
{
    let id = text::trimmed(stdout);
    if !id.as_str().is_empty() && !text::same(id.as_str(), "null") {
        Some(id)
    } else {
        None
    }
}

/// The conclusion that a query printed, where there is one.
pub fn run_conclusion_in(stdout: &str) -> (r: Option<String>)
    ensures
        text::opt(r) == (if text::trim(stdout@).len() > 0 {
            Some(text::trim(stdout@))
        } else {
            None
        }),
{
    let s = text::trimmed(stdout);
    if s.as_str().is_empty() {
        None
    } else {
        Some(s)
    }
}

// ── Tiers and repos ──

/// The repos of the first `n` crates, each once, in the order in which they come up.
pub open spec fn repos_upto(eco: Ecosystem, crates: Seq<String>, n: nat) -> Seq<Seq<char>>
    decreases n,
{
    if n == 0 {
        Seq::empty()
    } else {
        let before = repos_upto(eco, crates, (n - 1) as nat);
        let name = crates[n - 1]@;
        if eco.crates.has(name) && !before.contains(eco.crates@[name].repo_dir@) {
            before.push(eco.crates@[name].repo_dir@)
        } else {
            before
        }
    }
}

/// Get unique repo directories for crates in a tier
pub fn tier_repo_dirs(eco: &Ecosystem, crates: &Vec<String>) -> (r: Vec<String>)
    ensures
        text::texts(r@) == repos_upto(*eco, crates@, crates@.len()),
{
    let mut out: Vec<String> = Vec::new();
    let mut i: usize = 0;
    assert(text::texts(out@) =~= Seq::<Seq<char>>::empty());
    while i < crates.len()
        invariant
            i <= crates.len(),
            text::texts(out@) == repos_upto(*eco, crates@, i as nat),
        decreases crates.len() - i,
    {
        if let Some(info) = eco.crates.get(crates[i].as_str()) {
            proof {
                text::lemma_lists_texts(out@, info.repo_dir@);
            }
            if !text::holds(&out, info.repo_dir.as_str()) {
                out.push(info.repo_dir.clone());
            }
        }
        i += 1;
    }
    out
}

/// The crates of a list that live in a repo.
pub open spec fn crates_in_repo(
    eco: Ecosystem,
    crates: Seq<String>,
    repo_dir: Seq<char>,
) -> Seq<Seq<char>>
    decreases crates.len(),
{
    if crates.len() == 0 {
        Seq::empty()
    } else {
        let before = crates_in_repo(eco, crates.drop_last(), repo_dir);
        let name = crates.last()@;
        if eco.crates.has(name) && eco.crates@[name].repo_dir@ == repo_dir {
            before.push(name)
        } else {
            before
        }
    }
}

/// The crates of a list that live in a repo.
pub fn tier_crates_in_repo(eco: &Ecosystem, crates: &Vec<String>, repo_dir: &str) -> (r: Vec<
    String,
>)
    ensures
        text::texts(r@) == crates_in_repo(*eco, crates@, repo_dir@),
{
    let mut out: Vec<String> = Vec::new();
    let mut i: usize = 0;
    assert(crates@.take(0) =~= Seq::<String>::empty());
    assert(text::texts(out@) =~= Seq::<Seq<char>>::empty());
    while i < crates.len()
        invariant
            i <= crates.len(),
            text::texts(out@) == crates_in_repo(*eco, crates@.take(i as int), repo_dir@),
        decreases crates.len() - i,
    {
        assert(crates@.take(i + 1).drop_last() =~= crates@.take(i as int));
        if let Some(info) = eco.crates.get(crates[i].as_str()) {
            if text::same(info.repo_dir.as_str(), repo_dir) {
                out.push(crates[i].clone());
            }
        }
        i += 1;
    }
    assert(crates@.take(i as int) =~= crates@);
    out
}

/// The commit message for bumps in a repo.
pub fn bump_message(eco: &Ecosystem, crates: &Vec<String>, repo_dir: &str) -> (r: String)
    ensures
        r@ == "release: bump "@ + text::join(crates_in_repo(*eco, crates@, repo_dir@), ", "@),
{
    let names = tier_crates_in_repo(eco, crates, repo_dir);
    let list = text::join_with(&names, ", ");
    text::cat2("release: bump ", list.as_str())
}

/// The message for a tier that there is not.
pub open spec fn missing_tier_message(tier: int, levels: int) -> Seq<char> {
    "tier "@ + text::decimal(tier as nat) + " does not exist (max: "@ + text::decimal(
        (levels - 1) as nat,
    ) + ")"@
}

/// The crates of a tier that take part, where the tier exists.
pub fn tier_selection(
    levels: &Vec<Vec<String>>,
    tier: usize,
    analyses: &TextMap<CrateAnalysis>,
) -> (r: Result<Vec<String>, String>)
    requires
        levels.len() > 0,
    ensures
        tier < levels.len() ==> r is Ok && text::texts(r->Ok_0@) == participants(
            *analyses,
            levels@[tier as int]@,
        ),
        tier >= levels.len() ==> r is Err && r->Err_0@ == missing_tier_message(
            tier as int,
            levels.len() as int,
        ),
{
    if tier < levels.len() {
        Ok(tier_participants(analyses, &levels[tier]))
    } else {
        let t = text::decimal_of(tier as u64);
        let max = text::decimal_of((levels.len() - 1) as u64);
        let mut message = text::cat4("tier ", t.as_str(), " does not exist (max: ", max.as_str());
        message.append(")");
        Err(message)
    }
}

/// The first name from `k` on that a list does not hold.
pub open spec fn first_missing(names: Seq<Seq<char>>, list: Seq<String>, k: int) -> Option<
    Seq<char>,
>
    decreases names.len() - k,
{
    if k >= names.len() {
        None
    } else if !text::lists(list, names[k]) {
        Some(names[k])
    } else {
        first_missing(names, list, k + 1)
    }
}

proof fn lemma_first_missing(names: Seq<Seq<char>>, list: Seq<String>, k: int)
    requires
        0 <= k,
    ensures
        first_missing(names, list, k) is None <==> forall|i: int|
            k <= i < names.len() ==> text::lists(list, #[trigger] names[i]),
    decreases names.len() - k,
{
    if k < names.len() {
        lemma_first_missing(names, list, k + 1);
    }
}

/// The message for a tier whose CI has not passed.
pub open spec fn ci_missing_message(tier: int) -> Seq<char> {
    "tier "@ + text::decimal(tier as nat) + ": CI has not passed"@
}

/// The message for a crate of a tier that has no tag.
pub open spec fn tag_missing_message(tier: int, name: Seq<char>) -> Seq<char> {
    "tier "@ + text::decimal(tier as nat) + ": "@ + name + " is not tagged"@
}

/// The crates of a tier to publish. It takes that the tier exists, that its CI has passed and that
/// each crate that takes part is among those with a release tag.
pub fn publish_selection(
    levels: &Vec<Vec<String>>,
    tier: usize,
    analyses: &TextMap<CrateAnalysis>,
    tagged: &Vec<String>,
    ci: CiOutcome,
) -> (r: Result<Vec<String>, String>)
    requires
        levels.len() > 0,
    ensures
        r is Ok <==> {
            &&& tier < levels.len()
            &&& ci == CiOutcome::Passed
            &&& forall|i: int|
                0 <= i < participants(*analyses, levels@[tier as int]@).len() ==> text::lists(
                    tagged@,
                    #[trigger] participants(*analyses, levels@[tier as int]@)[i],
                )
        },
        r is Ok ==> text::texts(r->Ok_0@) == participants(*analyses, levels@[tier as int]@),
        r is Err ==> r->Err_0@ == if tier >= levels.len() {
            missing_tier_message(tier as int, levels.len() as int)
        } else if ci != CiOutcome::Passed {
            ci_missing_message(tier as int)
        } else {
            tag_missing_message(
                tier as int,
                first_missing(
                    participants(*analyses, levels@[tier as int]@),
                    tagged@,
                    0,
                ).unwrap(),
            )
        },
{
    let names = tier_selection(levels, tier, analyses)?;
    let t = text::decimal_of(tier as u64);
    if ci != CiOutcome::Passed {
        return Err(text::cat3("tier ", t.as_str(), ": CI has not passed"));
    }
    let ghost wanted = participants(*analyses, levels@[tier as int]@);
    proof {
        lemma_first_missing(wanted, tagged@, 0);
    }
    let mut i: usize = 0;
    while i < names.len()
        invariant
            i <= names.len(),
            text::texts(names@) == wanted,
            first_missing(wanted, tagged@, i as int) == first_missing(wanted, tagged@, 0),
        decreases names.len() - i,
    {
        assert(names@[i as int]@ == wanted[i as int]);
        if !text::holds(tagged, names[i].as_str()) {
            let mut message = text::cat4("tier ", t.as_str(), ": ", names[i].as_str());
            message.append(" is not tagged");
            return Err(message);
        }
        i += 1;
    }
    Ok(names)
}

/// The tag of a crate's release.
pub fn release_tag(info: &CrateInfo) -> (r: String)
    ensures
        r@ == info.name@ + "-v"@ + info.version@,
{
    text::cat3(info.name.as_str(), "-v", info.version.as_str())
}

/// The tier where a crate stands among the first `n`, a later one winning.
pub open spec fn tier_of(levels: Seq<Vec<String>>, name: Seq<char>, n: nat) -> Option<int>
    decreases n,
{
    if n == 0 {
        None
    } else if text::lists(levels[n - 1]@, name) {
        Some(n - 1)
    } else {
        tier_of(levels, name, (n - 1) as nat)
    }
}

/// The tier where a crate stands.
pub fn find_tier(levels: &Vec<Vec<String>>, name: &str) -> (r: Option<usize>)
    ensures
        match r {
            Some(t) => tier_of(levels@, name@, levels@.len()) == Some(t as int),
            None => tier_of(levels@, name@, levels@.len()) is None,
        },
{
    let mut n: usize = levels.len();
    while n > 0
        invariant
            n <= levels.len(),
            tier_of(levels@, name@, n as nat) == tier_of(levels@, name@, levels@.len()),
        decreases n,
    {
        if text::holds(&levels[n - 1], name) {
            return Some(n - 1);
        }
        n -= 1;
    }
    None
}

/// The number of the first `n` dependencies that lead to a crate.
pub open spec fn dependents_upto(deps: Seq<InternalDep>, name: Seq<char>, n: nat) -> nat
    decreases n,
{
    if n == 0 {
        0
    } else {
        dependents_upto(deps, name, (n - 1) as nat) + if deps[n - 1].to_crate@ == name {
            1nat
        } else {
            0nat
        }
    }
}

/// The number of dependencies that lead to a crate.
pub fn count_dependents(deps: &Vec<InternalDep>, name: &str) -> (r: usize)
    ensures
        r == dependents_upto(deps@, name@, deps@.len()),
{
    let mut n: usize = 0;
    let mut i: usize = 0;
    while i < deps.len()
        invariant
            i <= deps.len(),
            n <= i,
            n == dependents_upto(deps@, name@, i as nat),
        decreases deps.len() - i,
    {
        if text::same(deps[i].to_crate.as_str(), name) {
            n += 1;
        }
        i += 1;
    }
    n
}

// ── Building an analysis ──

/// What a diff adds up to.
pub struct Numstat {
    pub files: usize,
    pub added: usize,
    pub removed: usize,
    pub src_files: usize,
}

/// A count in a diff; what is no number counts nothing.
pub open spec fn count_in(s: Seq<char>) -> nat {
    match text::parsed_number(s, usize::MAX as nat) {
        Some(n) => n,
        None => 0,
    }
}

/// What the lines of a diff add up to: files, lines added, lines removed, files under `src/`.
pub open spec fn stat_of(lines: Seq<Seq<char>>) -> (nat, nat, nat, nat)
    decreases lines.len(),
{
    if lines.len() == 0 {
        (0, 0, 0, 0)
    } else {
        let before = stat_of(lines.drop_last());
        let parts = text::split(lines.last(), '\t');
        if parts.len() >= 3 {
            (
                before.0 + 1,
                before.1 + count_in(parts[0]),
                before.2 + count_in(parts[1]),
                before.3 + if text::occurs(parts[2], "src/"@) {
                    1nat
                } else {
                    0nat
                },
            )
        } else {
            before
        }
    }
}

proof fn lemma_stat_grows(lines: Seq<Seq<char>>, n: int)
    requires
        0 <= n <= lines.len(),
    ensures
        stat_of(lines.take(n)).1 <= stat_of(lines).1,
        stat_of(lines.take(n)).2 <= stat_of(lines).2,
    decreases lines.len() - n,
{
    if n == lines.len() {
        assert(lines.take(n) =~= lines);
    } else {
        lemma_stat_grows(lines, n + 1);
        assert(lines.take(n + 1).drop_last() =~= lines.take(n));
    }
}

fn read_count(s: &str) -> (r: usize)
    ensures
        r == count_in(s@),
{
    match text::parse_size(s) {
        Some(n) => n,
        None => 0,
    }
}

/// Add up a diff; nothing where the lines are too many to count.
pub fn parse_numstat(stdout: &str) -> (r: Option<Numstat>)
    ensures
        match r {
            Some(s) => (s.files as nat, s.added as nat, s.removed as nat, s.src_files as nat)
                == stat_of(text::lines(stdout@)),
            None => stat_of(text::lines(stdout@)).1 > usize::MAX || stat_of(
                text::lines(stdout@),
            ).2 > usize::MAX,
        },
{
    let ls = text::lines_of(stdout);
    let ghost all = text::lines(stdout@);
    let mut files: usize = 0;
    let mut added: usize = 0;
    let mut removed: usize = 0;
    let mut src_files: usize = 0;
    let mut i: usize = 0;
    assert(all.take(0) =~= Seq::<Seq<char>>::empty());
    while i < ls.len()
        invariant
            i <= ls.len(),
            all == text::texts(ls@),
            files <= i,
            src_files <= i,
            (files as nat, added as nat, removed as nat, src_files as nat) == stat_of(
                all.take(i as int),
            ),
        decreases ls.len() - i,
    {
        assert(all.take(i + 1).drop_last() =~= all.take(i as int));
        assert(all.take(i + 1).last() == ls@[i as int]@);
        let parts = text::split_on(ls[i].as_str(), '\t');
        let ghost ps = text::split(ls@[i as int]@, '\t');
        assert(ps == text::texts(parts@));
        if parts.len() >= 3 {
            assert(ps[0] == parts@[0]@ && ps[1] == parts@[1]@ && ps[2] == parts@[2]@);
            proof {
                lemma_stat_grows(all, i + 1);
            }
            files += 1;
            added = match added.checked_add(read_count(parts[0].as_str())) {
                Some(n) => n,
                None => return None,
            };
            removed = match removed.checked_add(read_count(parts[1].as_str())) {
                Some(n) => n,
                None => return None,
            };
            if text::contains(parts[2].as_str(), "src/") {
                src_files += 1;
            }
        }
        i += 1;
    }
    assert(all.take(i as int) =~= all);
    Some(Numstat { files, added, removed, src_files })
}

/// What git knows of a crate since its tag.
pub struct TagFacts {
    pub tag: String,
    /// The diff by lines added and removed, where git gave one.
    pub numstat: Option<String>,
    /// The subjects of the commits, where git gave them.
    pub log: Option<String>,
}

/// The lines of a text that may be missing.
pub open spec fn lines_in(s: Option<String>) -> Seq<Seq<char>> {
    match s {
        Some(t) => text::lines(t@),
        None => Seq::empty(),
    }
}

/// What the diff of a tag adds up to.
pub open spec fn tag_stat(facts: Option<TagFacts>) -> (nat, nat, nat, nat) {
    match facts {
        Some(f) => stat_of(lines_in(f.numstat)),
        None => (0, 0, 0, 0),
    }
}

/// Whether `a` is what is known of a crate, with nothing decided yet.
pub open spec fn analyses_crate(
    a: CrateAnalysis,
    info: CrateInfo,
    tier: Option<usize>,
    dependents: usize,
    head: Seq<char>,
    facts: Option<TagFacts>,
) -> bool {
    &&& a.version@ == info.version@
    &&& a.class@ == info.class.label()
    &&& a.tier == tier
    &&& a.dependents == dependents
    &&& a.head@ == text::trim(head)
    &&& a.tag_found == facts is Some
    &&& a.tag@ == match facts {
        Some(f) => f.tag@,
        None => Seq::<char>::empty(),
    }
    &&& (
        a.files_changed as nat,
        a.lines_added as nat,
        a.lines_removed as nat,
        a.src_files_changed as nat,
    ) == tag_stat(facts)
    &&& text::texts(a.commit_subjects@) == match facts {
        Some(f) => lines_in(f.log),
        None => Seq::<Seq<char>>::empty(),
    }
    &&& a.commit_count == a.commit_subjects@.len()
    &&& a.category@.len() == 0
    &&& a.bump@.len() == 0
    &&& a.reason@.len() == 0
    &&& !a.needs_review
    &&& a.semver_check@.len() == 0
    &&& a.copter@.len() == 0
}

/// Put together what is known of a crate; nothing where its diff is too large to count.
pub fn build_crate_analysis(
    info: &CrateInfo,
    tier: Option<usize>,
    dependents: usize,
    head: &str,
    facts: &Option<TagFacts>,
) -> (r: Option<CrateAnalysis>)
    ensures
        match r {
            Some(a) => analyses_crate(a, *info, tier, dependents, head@, *facts),
            None => tag_stat(*facts).1 > usize::MAX || tag_stat(*facts).2 > usize::MAX,
        },
{
    let mut tag = String::new();
    let mut stat = Numstat { files: 0, added: 0, removed: 0, src_files: 0 };
    let mut subjects: Vec<String> = Vec::new();
    assert(text::texts(subjects@) =~= Seq::<Seq<char>>::empty());
    if let Some(f) = facts {
        tag = f.tag.clone();
        if let Some(n) = &f.numstat {
            stat = match parse_numstat(n.as_str()) {
                Some(s) => s,
                None => return None,
            };
        }
        if let Some(log) = &f.log {
            subjects = text::lines_of(log.as_str());
        }
    }
    let commit_count: usize = subjects.len();
    Some(
        CrateAnalysis {
            head: text::trimmed(head),
            tag,
            tag_found: facts.is_some(),
            version: info.version.clone(),
            class: info.class.name().to_string(),
            tier,
            dependents,
            files_changed: stat.files,
            lines_added: stat.added,
            lines_removed: stat.removed,
            src_files_changed: stat.src_files,
            commit_count,
            commit_subjects: subjects,
            category: String::new(),
            bump: String::new(),
            reason: String::new(),
            needs_review: false,
            semver_check: String::new(),
            copter: String::new(),
        },
    )
}

// ── Categorization ──

pub open spec fn categories() -> Seq<Seq<char>> {
    seq![
        "breaking"@,
        "feature"@,
        "fix"@,
        "perf"@,
        "docs"@,
        "deps"@,
        "internal"@,
        "skip"@,
    ]
}

pub open spec fn bumps() -> Seq<Seq<char>> {
    seq!["major"@, "minor"@, "patch"@, "skip"@]
}

fn valid_categories() -> (r: Vec<String>)
    ensures
        text::texts(r@) == categories(),
{
    let mut v: Vec<String> = Vec::new();
    v.push("breaking".to_string());
    v.push("feature".to_string());
    v.push("fix".to_string());
    v.push("perf".to_string());
    v.push("docs".to_string());
    v.push("deps".to_string());
    v.push("internal".to_string());
    v.push("skip".to_string());
    assert(text::texts(v@) =~= categories());
    v
}

fn valid_bumps() -> (r: Vec<String>)
    ensures
        text::texts(r@) == bumps(),
{
    let mut v: Vec<String> = Vec::new();
    v.push("major".to_string());
    v.push("minor".to_string());
    v.push("patch".to_string());
    v.push("skip".to_string());
    assert(text::texts(v@) =~= bumps());
    v
}

pub open spec fn bad_category_message(category: Seq<char>) -> Seq<char> {
    "invalid category '"@ + category + "'. Valid: "@ + text::join(categories(), ", "@)
}

pub open spec fn bad_bump_message(bump: Seq<char>) -> Seq<char> {
    "invalid bump '"@ + bump + "'. Valid: "@ + text::join(bumps(), ", "@)
}

/// Check a categorization before it is written down.
pub fn validate_categorization(category: &str, bump: &str) -> (r: Result<(), String>)
    ensures
        r is Ok <==> categories().contains(category@) && bumps().contains(bump@),
        !categories().contains(category@) ==> r is Err && r->Err_0@ == bad_category_message(
            category@,
        ),
        categories().contains(category@) && !bumps().contains(bump@) ==> r is Err && r->Err_0@
            == bad_bump_message(bump@),
{
    let cats = valid_categories();
    proof {
        text::lemma_lists_texts(cats@, category@);
    }
    if !text::holds(&cats, category) {
        let list = text::join_with(&cats, ", ");
        return Err(text::cat4("invalid category '", category, "'. Valid: ", list.as_str()));
    }
    let levels = valid_bumps();
    proof {
        text::lemma_lists_texts(levels@, bump@);
    }
    if !text::holds(&levels, bump) {
        let list = text::join_with(&levels, ", ");
        return Err(text::cat4("invalid bump '", bump, "'. Valid: ", list.as_str()));
    }
    Ok(())
}

/// Whether only the categorization differs.
pub open spec fn recategorized(
    was: CrateAnalysis,
    now: CrateAnalysis,
    category: Seq<char>,
    bump: Seq<char>,
    reason: Seq<char>,
) -> bool {
    &&& now.category@ == category
    &&& now.bump@ == bump
    &&& now.reason@ == reason
    &&& now == (CrateAnalysis {
        category: now.category,
        bump: now.bump,
        reason: now.reason,
        ..was
    })
}

/// Whether two analyses of a repo differ at most in one crate.
pub open spec fn same_but_crate(was: RepoAnalysis, now: RepoAnalysis, name: Seq<char>) -> bool {
    &&& now.schema_version == was.schema_version
    &&& now.superworkspace == was.superworkspace
    &&& now.generated_at == was.generated_at
    &&& was.crates.has(name)
    &&& now.crates.has(name)
    &&& now.crates@ == was.crates@.insert(name, now.crates@[name])
}

/// Whether two analyses of a repo hold the same.
pub open spec fn same_analysis(was: RepoAnalysis, now: RepoAnalysis) -> bool {
    &&& now.schema_version == was.schema_version
    &&& now.superworkspace == was.superworkspace
    &&& now.generated_at == was.generated_at
    &&& now.crates@ == was.crates@
}

/// Write the categorization of a crate into its repo's analysis.
pub fn categorize(
    analysis: &mut RepoAnalysis,
    name: &str,
    category: &str,
    bump: &str,
    reason: Option<&str>,
) -> (r: Result<(), String>)
    ensures
        old(analysis).crates.has(name@) ==> r is Ok && same_but_crate(
            *old(analysis),
            *final(analysis),
            name@,
        ) && recategorized(
            old(analysis).crates@[name@],
            final(analysis).crates@[name@],
            category@,
            bump@,
            match reason {
                Some(t) => t@,
                None => Seq::empty(),
            },
        ),
        !old(analysis).crates.has(name@) ==> r is Err && r->Err_0@ == "crate '"@ + name@
            + "' not in analysis file"@ && same_analysis(*old(analysis), *final(analysis)),
{
    match analysis.crates.remove(name) {
        None => {
            assert(analysis.crates@ =~= old(analysis).crates@);
            Err(text::cat3("crate '", name, "' not in analysis file"))
        },
        Some(mut a) => {
            a.category = category.to_string();
            a.bump = bump.to_string();
            a.reason = match reason {
                Some(t) => t.to_string(),
                None => {
                    let none = String::new();
                    assert(none@ =~= Seq::<char>::empty());
                    none
                },
            };
            let ghost now = a;
            analysis.crates.insert(name.to_string(), a);
            proof {
                assert(analysis.crates@ =~= old(analysis).crates@.insert(name@, now));
                assert(analysis.crates@.dom().contains(name@));
            }
            Ok(())
        },
    }
}

/// Which check result is written down.
#[derive(Debug, Clone, Copy, PartialEq, Eq, Structural)]
pub enum CheckField {
    Semver,
    Copter,
}

/// Write a check result into a crate's analysis, where it has one.
pub fn record_check(analysis: &mut RepoAnalysis, name: &str, field: CheckField, result: &str)
    ensures
        old(analysis).crates.has(name@) ==> same_but_crate(*old(analysis), *final(analysis), name@)
            && match field {
            CheckField::Semver => final(analysis).crates@[name@].semver_check@ == result@
                && final(analysis).crates@[name@] == (CrateAnalysis {
                semver_check: final(analysis).crates@[name@].semver_check,
                ..old(analysis).crates@[name@]
            }),
            CheckField::Copter => final(analysis).crates@[name@].copter@ == result@ && final(analysis).crates@[name@] == (CrateAnalysis {
                copter: final(analysis).crates@[name@].copter,
                ..old(analysis).crates@[name@]
            }),
        },
        !old(analysis).crates.has(name@) ==> same_analysis(*old(analysis), *final(analysis)),
{
    match analysis.crates.remove(name) {
        None => {
            assert(analysis.crates@ =~= old(analysis).crates@);
        },
        Some(mut a) => {
            match field {
                CheckField::Semver => {
                    a.semver_check = result.to_string();
                },
                CheckField::Copter => {
                    a.copter = result.to_string();
                },
            }
            let ghost now = a;
            analysis.crates.insert(name.to_string(), a);
            proof {
                assert(analysis.crates@ =~= old(analysis).crates@.insert(name@, now));
                assert(analysis.crates@.dom().contains(name@));
            }
        },
    }
}

/// The analyses of the named crates of a repo, put into the collection of all.
pub open spec fn merged(
    all: Map<Seq<char>, CrateAnalysis>,
    repo: Map<Seq<char>, CrateAnalysis>,
    names: Seq<String>,
) -> Map<Seq<char>, CrateAnalysis>
    decreases names.len(),
{
    if names.len() == 0 {
        all
    } else {
        let before = merged(all, repo, names.drop_last());
        if repo.dom().contains(names.last()@) {
            before.insert(names.last()@, repo[names.last()@])
        } else {
            before
        }
    }
}

/// Add the analyses of a repo's crates to the collection of all.
pub fn collect_analyses(
    analysis: RepoAnalysis,
    names: &Vec<String>,
    all: &mut TextMap<CrateAnalysis>,
)
    ensures
        final(all)@ == merged(old(all)@, analysis.crates@, names@),
{
    let ghost repo = analysis.crates@;
    let mut crates = analysis.crates;
    let mut i: usize = 0;
    assert(names@.take(0) =~= Seq::<String>::empty());
    while i < names.len()
        invariant
            i <= names.len(),
            all@ == merged(old(all)@, repo, names@.take(i as int)),
            forall|k: Seq<char>| #[trigger]
                crates@.dom().contains(k) ==> repo.dom().contains(k) && crates@[k] == repo[k],
            forall|k: Seq<char>| #[trigger]
                repo.dom().contains(k) ==> crates@.dom().contains(k) || all@.dom().contains(k)
                    && all@[k] == repo[k],
        decreases names.len() - i,
    {
        assert(names@.take(i + 1).drop_last() =~= names@.take(i as int));
        let ghost k = names@[i as int]@;
        let ghost before = all@;
        let ghost crates_had = crates@.dom().contains(k);
        if let Some(a) = crates.remove(names[i].as_str()) {
            all.insert(names[i].clone(), a);
        }
        proof {
            if !crates_had && repo.dom().contains(k) {
                assert(before.insert(k, repo[k]) =~= before);
            }
        }
        i += 1;
    }
    assert(names@.take(i as int) =~= names@);
}

// ── Overview and next steps ──

/// How many analyses have no category.
pub open spec fn uncategorized_in(values: Seq<CrateAnalysis>) -> nat
    decreases values.len(),
{
    if values.len() == 0 {
        0
    } else {
        uncategorized_in(values.drop_last()) + if values.last().category@.len() == 0 {
            1nat
        } else {
            0nat
        }
    }
}

/// How many analyses leave their crate out.
pub open spec fn skipped_in(values: Seq<CrateAnalysis>) -> nat
    decreases values.len(),
{
    if values.len() == 0 {
        0
    } else {
        skipped_in(values.drop_last()) + if values.last().skipped() {
            1nat
        } else {
            0nat
        }
    }
}

/// How far the release has come.
pub struct ReleaseSummary {
    pub total: usize,
    pub categorized: usize,
    pub skipped: usize,
    pub pending: usize,
}

/// Count the analyses by what is decided.
pub fn summarize(analyses: &TextMap<CrateAnalysis>) -> (r: ReleaseSummary)
    ensures
        r.total == analyses.values().len(),
        r.pending == uncategorized_in(analyses.values()),
        r.categorized + r.pending == r.total,
        r.skipped == skipped_in(analyses.values()),
{
    let n: usize = analyses.len();
    let mut pending: usize = 0;
    let mut skipped: usize = 0;
    let mut i: usize = 0;
    let ghost vs = analyses.values();
    assert(vs.take(0) =~= Seq::<CrateAnalysis>::empty());
    while i < n
        invariant
            i <= n,
            n == vs.len(),
            n == analyses.keys().len(),
            vs == analyses.values(),
            pending <= i,
            skipped <= i,
            pending == uncategorized_in(vs.take(i as int)),
            skipped == skipped_in(vs.take(i as int)),
        decreases n - i,
    {
        let a = analyses.value_at(i);
        assert(vs.take(i + 1).drop_last() =~= vs.take(i as int));
        assert(vs.take(i + 1).last() == *a);
        if a.category.as_str().is_empty() {
            pending += 1;
        }
        if a.is_skipped() {
            skipped += 1;
        }
        i += 1;
    }
    assert(vs.take(n as int) =~= vs);
    ReleaseSummary { total: n, categorized: n - pending, skipped, pending }
}

/// Whether a crate still needs a semver check.
pub open spec fn needs_semver(
    eco: Ecosystem,
    analyses: TextMap<CrateAnalysis>,
    name: Seq<char>,
) -> bool {
    &&& takes_part(analyses, name)
    &&& analyses@[name].semver_check@.len() == 0
    &&& eco.crates.has(name)
    &&& eco.crates@[name].class == CrateClass::Library
}

/// How many crates of a tier still need a semver check.
pub open spec fn semver_due(
    eco: Ecosystem,
    analyses: TextMap<CrateAnalysis>,
    level: Seq<String>,
) -> nat
    decreases level.len(),
{
    if level.len() == 0 {
        0
    } else {
        semver_due(eco, analyses, level.drop_last()) + if needs_semver(
            eco,
            analyses,
            level.last()@,
        ) {
            1nat
        } else {
            0nat
        }
    }
}

/// The first tier from `k` on with crates that still need a semver check.
pub open spec fn first_semver_due(
    eco: Ecosystem,
    analyses: TextMap<CrateAnalysis>,
    levels: Seq<Vec<String>>,
    k: int,
) -> Option<int>
    decreases levels.len() - k,
{
    if k < 0 || k >= levels.len() {
        None
    } else if semver_due(eco, analyses, levels[k]@) > 0 {
        Some(k)
    } else {
        first_semver_due(eco, analyses, levels, k + 1)
    }
}

/// The first tier from `k` on with crates that take part.
pub open spec fn first_ready(
    analyses: TextMap<CrateAnalysis>,
    levels: Seq<Vec<String>>,
    k: int,
) -> Option<int>
    decreases levels.len() - k,
{
    if k < 0 || k >= levels.len() {
        None
    } else if participants(analyses, levels[k]@).len() > 0 {
        Some(k)
    } else {
        first_ready(analyses, levels, k + 1)
    }
}

/// What is to be done next.
pub enum NextStep {
    /// No analysis exists yet.
    Init,
    /// So many crates are not categorized.
    Categorize(usize),
    /// So many crates of a tier need a semver check.
    CheckSemver { tier: usize, count: usize },
    /// So many crates of a tier are ready.
    Release { tier: usize, count: usize },
    /// Nothing is left to do.
    Done,
}

/// Whether `step` is what is to be done next.
pub open spec fn is_next(
    step: NextStep,
    eco: Ecosystem,
    levels: Seq<Vec<String>>,
    analyses: TextMap<CrateAnalysis>,
) -> bool {
    let pending = uncategorized_in(analyses.values());
    if analyses.values().len() == 0 {
        step is Init
    } else if pending > 0 {
        step matches NextStep::Categorize(n) && n == pending
    } else {
        match first_semver_due(eco, analyses, levels, 0) {
            Some(t) => step matches NextStep::CheckSemver { tier, count } && tier == t && count
                == semver_due(eco, analyses, levels[t]@),
            None => match first_ready(analyses, levels, 0) {
                Some(t) => step matches NextStep::Release { tier, count } && tier == t && count
                    == participants(analyses, levels[t]@).len(),
                None => step is Done,
            },
        }
    }
}

fn count_semver_due(
    eco: &Ecosystem,
    analyses: &TextMap<CrateAnalysis>,
    level: &Vec<String>,
) -> (r: usize)
    ensures
        r == semver_due(*eco, *analyses, level@),
{
    let mut n: usize = 0;
    let mut i: usize = 0;
    assert(level@.take(0) =~= Seq::<String>::empty());
    while i < level.len()
        invariant
            i <= level.len(),
            n <= i,
            n == semver_due(*eco, *analyses, level@.take(i as int)),
        decreases level.len() - i,
    {
        assert(level@.take(i + 1).drop_last() =~= level@.take(i as int));
        if let Some(a) = analyses.get(level[i].as_str()) {
            if !a.is_skipped() && a.semver_check.as_str().is_empty() {
                if let Some(info) = eco.crates.get(level[i].as_str()) {
                    if info.class == CrateClass::Library {
                        n += 1;
                    }
                }
            }
        }
        i += 1;
    }
    assert(level@.take(i as int) =~= level@);
    n
}

/// Suggest what to do next.
pub fn suggest_next(
    eco: &Ecosystem,
    levels: &Vec<Vec<String>>,
    analyses: &TextMap<CrateAnalysis>,
) -> (r: NextStep)
    ensures
        is_next(r, *eco, levels@, *analyses),
{
    let summary = summarize(analyses);
    if summary.total == 0 {
        return NextStep::Init;
    }
    if summary.pending > 0 {
        return NextStep::Categorize(summary.pending);
    }
    let mut t: usize = 0;
    while t < levels.len()
        invariant
            t <= levels.len(),
            first_semver_due(*eco, *analyses, levels@, t as int) == first_semver_due(
                *eco,
                *analyses,
                levels@,
                0,
            ),
        decreases levels.len() - t,
    {
        let count = count_semver_due(eco, analyses, &levels[t]);
        if count > 0 {
            return NextStep::CheckSemver { tier: t, count };
        }
        t += 1;
    }
    let mut u: usize = 0;
    while u < levels.len()
        invariant
            u <= levels.len(),
            first_ready(*analyses, levels@, u as int) == first_ready(*analyses, levels@, 0),
        decreases levels.len() - u,
    {
        let ready = tier_participants(analyses, &levels[u]);
        assert(text::texts(ready@).len() == ready.len());
        if ready.len() > 0 {
            return NextStep::Release { tier: u, count: ready.len() };
        }
        u += 1;
    }
    NextStep::Done
}

/// The crates of a tier that an overview shows: all, or only those without a category.
pub open spec fn shown(
    analyses: TextMap<CrateAnalysis>,
    level: Seq<String>,
    uncategorized_only: bool,
) -> Seq<Seq<char>>
    decreases level.len(),
{
    if level.len() == 0 {
        Seq::empty()
    } else {
        let before = shown(analyses, level.drop_last(), uncategorized_only);
        let name = level.last()@;
        if uncategorized_only && analyses.has(name) && analyses@[name].category@.len() > 0 {
            before
        } else {
            before.push(name)
        }
    }
}

/// The crates of a tier that an overview shows.
pub fn crates_to_show(
    analyses: &TextMap<CrateAnalysis>,
    level: &Vec<String>,
    uncategorized_only: bool,
) -> (r: Vec<String>)
    ensures
        text::texts(r@) == shown(*analyses, level@, uncategorized_only),
{
    let mut out: Vec<String> = Vec::new();
    let mut i: usize = 0;
    assert(level@.take(0) =~= Seq::<String>::empty());
    assert(text::texts(out@) =~= Seq::<Seq<char>>::empty());
    while i < level.len()
        invariant
            i <= level.len(),
            text::texts(out@) == shown(*analyses, level@.take(i as int), uncategorized_only),
        decreases level.len() - i,
    {
        assert(level@.take(i + 1).drop_last() =~= level@.take(i as int));
        let done = match analyses.get(level[i].as_str()) {
            Some(a) => !a.category.as_str().is_empty(),
            None => false,
        };
        if !(uncategorized_only && done) {
            out.push(level[i].clone());
        }
        i += 1;
    }
    assert(level@.take(i as int) =~= level@);
    out
}

/// How many results are a success.
pub open spec fn successes(results: Seq<String>) -> nat
    decreases results.len(),
{
    if results.len() == 0 {
        0
    } else {
        successes(results.drop_last()) + if results.last()@ == "success"@ {
            1nat
        } else {
            0nat
        }
    }
}

/// How many repos of a tier passed CI.
pub fn ci_passed_count(tier: &TierState) -> (r: usize)
    ensures
        r == successes(tier.ci_results.values()),
{
    let n: usize = tier.ci_results.len();
    let ghost vs = tier.ci_results.values();
    let mut passed: usize = 0;
    let mut i: usize = 0;
    assert(vs.take(0) =~= Seq::<String>::empty());
    while i < n
        invariant
            i <= n,
            n == vs.len(),
            n == tier.ci_results.keys().len(),
            vs == tier.ci_results.values(),
            passed <= i,
            passed == successes(vs.take(i as int)),
        decreases n - i,
    {
        let v = tier.ci_results.value_at(i);
        assert(vs.take(i + 1).drop_last() =~= vs.take(i as int));
        if text::same(v.as_str(), "success") {
            passed += 1;
        }
        i += 1;
    }
    assert(vs.take(n as int) =~= vs);
    passed
}

/// The CI runs of a tier's repos.
pub open spec fn runs_of(wave: WaveState, tier: int) -> Map<Seq<char>, String> {
    if wave.tiers.has(tier_key(tier)) {
        wave.tiers@[tier_key(tier)].ci_runs@
    } else {
        Map::empty()
    }
}

/// The CI conclusions of a tier's repos.
pub open spec fn results_of(wave: WaveState, tier: int) -> Map<Seq<char>, String> {
    if wave.tiers.has(tier_key(tier)) {
        wave.tiers@[tier_key(tier)].ci_results@
    } else {
        Map::empty()
    }
}

/// Whether a map has taken in an entry, where there is one to take in, and is else as it was.
pub open spec fn taken_in(
    was: Map<Seq<char>, String>,
    now: Map<Seq<char>, String>,
    key: Seq<char>,
    entry: Option<Seq<char>>,
) -> bool {
    match entry {
        Some(t) => now == was.insert(key, now[key]) && now[key]@ == t,
        None => now == was,
    }
}

/// The status of a tier as it is written down, empty where nothing is.
pub open spec fn written_status(wave: WaveState, tier: int) -> Seq<char> {
    if wave.tiers.has(tier_key(tier)) {
        wave.tiers@[tier_key(tier)].status@
    } else {
        Seq::empty()
    }
}

/// Write down a CI run or a CI conclusion of a repo.
pub fn record_ci(wave: &mut WaveState, tier: usize, repo_dir: &str, run: Option<&str>, conclusion:
    Option<&str>)
    ensures
        final(wave).started_at == old(wave).started_at,
        final(wave).workspace == old(wave).workspace,
        final(wave).tiers@.dom() == old(wave).tiers@.dom().insert(tier_key(tier as int)),
        forall|k: Seq<char>|
            k != tier_key(tier as int) && old(wave).tiers.has(k) ==> #[trigger] final(
                wave).tiers@[k] == old(wave).tiers@[k],
        written_status(*final(wave), tier as int) == written_status(*old(wave), tier as int),
        status_of(*final(wave), tier as int) == status_of(*old(wave), tier as int),
        crates_of(*final(wave), tier as int) == crates_of(*old(wave), tier as int),
        taken_in(
            runs_of(*old(wave), tier as int),
            runs_of(*final(wave), tier as int),
            repo_dir@,
            match run {
                Some(t) => Some(t@),
                None => None,
            },
        ),
        taken_in(
            results_of(*old(wave), tier as int),
            results_of(*final(wave), tier as int),
            repo_dir@,
            match conclusion {
                Some(t) => Some(t@),
                None => None,
            },
        ),
{
    let key = text::decimal_of(tier as u64);
    let mut ts = match wave.tiers.remove(key.as_str()) {
        Some(t) => t,
        None => TierState::default(),
    };
    if let Some(id) = run {
        ts.ci_runs.insert(repo_dir.to_string(), id.to_string());
    }
    if let Some(c) = conclusion {
        ts.ci_results.insert(repo_dir.to_string(), c.to_string());
    }
    let ghost kept = ts;
    wave.tiers.insert(key, ts);
    proof {
        let k = tier_key(tier as int);
        assert(wave.tiers@.dom() =~= old(wave).tiers@.dom().insert(k));
        assert(wave.tiers@.dom().contains(k));
        if !old(wave).tiers.has(k) {
            reveal_strlit("pending");
            reveal_strlit("bumped");
            reveal_strlit("pushed");
            reveal_strlit("tagged");
            reveal_strlit("ci_watching");
            reveal_strlit("ci_passed");
            reveal_strlit("publishing");
            reveal_strlit("published");
            assert(kept.status@.len() == 0);
            assert(crates_of(*wave, tier as int) =~= Seq::<Seq<char>>::empty());
        }
    }
}

// ── Check results ──

/// Whether a crate is checked for breaking changes: libraries only.
pub fn wants_semver(info: &CrateInfo) -> (r: bool)
    ensures
        r == (info.class is Library),
{
    info.class == CrateClass::Library
}

/// Whether the dependents of a crate are tested against it: where that is asked for and it has any.
pub fn wants_copter(a: &CrateAnalysis, asked: bool) -> (r: bool)
    ensures
        r == (asked && a.dependents > 0),
{
    asked && a.dependents > 0
}

/// How an outside command ended.
pub enum CommandOutcome {
    Success,
    /// It ran and failed, with this exit code and error output.
    Failure { code: Option<i32>, stderr: String },
    /// It could not be run.
    NotRun(String),
}

/// The first line of a text, empty where there is none.
pub open spec fn first_line(s: Seq<char>) -> Seq<char> {
    if text::lines(s).len() > 0 {
        text::lines(s)[0]
    } else {
        Seq::empty()
    }
}

/// The first line of a text, empty where there is none.
pub fn first_line_of(s: &str) -> (r: String)
    ensures
        r@ == first_line(s@),
{
    let ls = text::lines_of(s);
    assert(text::texts(ls@).len() == ls.len());
    if ls.len() > 0 {
        ls[0].clone()
    } else {
        let none = String::new();
        assert(none@ =~= Seq::<char>::empty());
        none
    }
}

/// What a semver check found, as it is written down.
pub open spec fn semver_result(outcome: CommandOutcome) -> Seq<char> {
    match outcome {
        CommandOutcome::Success => "pass"@,
        CommandOutcome::Failure { code, stderr } => if code == Some(1i32) {
            "breaking"@
        } else {
            "error: "@ + first_line(stderr@)
        },
        CommandOutcome::NotRun(e) => "error: "@ + e@,
    }
}

/// What a semver check found, as it is written down.
pub fn semver_verdict(outcome: &CommandOutcome) -> (r: String)
    ensures
        r@ == semver_result(*outcome),
{
    match outcome {
        CommandOutcome::Success => "pass".to_string(),
        CommandOutcome::Failure { code, stderr } => {
            let breaking = match code {
                Some(c) => *c == 1,
                None => false,
            };
            if breaking {
                "breaking".to_string()
            } else {
                let line = first_line_of(stderr.as_str());
                text::cat2("error: ", line.as_str())
            }
        },
        CommandOutcome::NotRun(e) => text::cat2("error: ", e.as_str()),
    }
}

/// What a copter run found, as it is written down.
pub fn copter_verdict(outcome: &CommandOutcome) -> (r: String)
    ensures
        r@ == (match *outcome {
            CommandOutcome::Success => "pass"@,
            CommandOutcome::Failure { .. } => "fail"@,
            CommandOutcome::NotRun(e) => "error: "@ + e@,
        }),
{
    match outcome {
        CommandOutcome::Success => "pass".to_string(),
        CommandOutcome::Failure { .. } => "fail".to_string(),
        CommandOutcome::NotRun(e) => text::cat2("error: ", e.as_str()),
    }
}

/// The directories of the crates that depend on `name`, dependency by dependency.
pub open spec fn dependent_dirs(eco: Ecosystem, name: Seq<char>, n: nat) -> Seq<Seq<char>>
    decreases n,
{
    if n == 0 {
        Seq::empty()
    } else {
        let before = dependent_dirs(eco, name, (n - 1) as nat);
        let dep = eco.deps@[n - 1];
        if dep.to_crate@ == name && eco.crates.has(dep.from_crate@) {
            before.push(path::parent(eco.crates@[dep.from_crate@].manifest_path@).unwrap())
        } else {
            before
        }
    }
}

/// The directories of the crates that depend on `name`.
pub fn reverse_dep_dirs(eco: &Ecosystem, name: &str) -> (r: Vec<String>)
    requires
        forall|i: int|
            0 <= i < eco.deps.len() && (#[trigger] eco.deps@[i]).to_crate@ == name@
                ==> crate::discover::is_placed(eco.deps@[i].from_crate@, *eco),
    ensures
        text::texts(r@) == dependent_dirs(*eco, name@, eco.deps@.len()),
{
    let mut out: Vec<String> = Vec::new();
    let mut i: usize = 0;
    assert(text::texts(out@) =~= Seq::<Seq<char>>::empty());
    while i < eco.deps.len()
        invariant
            i <= eco.deps.len(),
            text::texts(out@) == dependent_dirs(*eco, name@, i as nat),
        decreases eco.deps.len() - i,
    {
        let dep = &eco.deps[i];
        if text::same(dep.to_crate.as_str(), name) {
            if let Some(info) = eco.crates.get(dep.from_crate.as_str()) {
                assert(crate::discover::is_placed(eco.deps@[i as int].from_crate@, *eco));
                if let Some(dir) = path::parent_of(info.manifest_path.as_str()) {
                    out.push(dir);
                }
            }
        }
        i += 1;
    }
    out
}

/// The arguments of a copter run.
pub open spec fn copter_args_for(dir: Seq<char>, dependents: Seq<Seq<char>>) -> Seq<Seq<char>>
    decreases dependents.len(),
{
    if dependents.len() == 0 {
        seq!["copter"@, "-p"@, dir, "--only-check"@, "--simple"@]
    } else {
        copter_args_for(dir, dependents.drop_last()).push("--dependent-paths"@).push(
            dependents.last(),
        )
    }
}

/// The arguments of a copter run.
pub fn copter_args(dir: &str, dependents: &Vec<String>) -> (r: Vec<String>)
    ensures
        text::texts(r@) == copter_args_for(dir@, text::texts(dependents@)),
{
    let mut out: Vec<String> = Vec::new();
    out.push("copter".to_string());
    out.push("-p".to_string());
    out.push(dir.to_string());
    out.push("--only-check".to_string());
    out.push("--simple".to_string());
    let ghost ds = text::texts(dependents@);
    let mut i: usize = 0;
    assert(ds.take(0) =~= Seq::<Seq<char>>::empty());
    assert(text::texts(out@) =~= copter_args_for(dir@, ds.take(0)));
    while i < dependents.len()
        invariant
            i <= dependents.len(),
            ds == text::texts(dependents@),
            text::texts(out@) == copter_args_for(dir@, ds.take(i as int)),
        decreases dependents.len() - i,
    {
        assert(ds.take(i + 1).drop_last() =~= ds.take(i as int));
        assert(ds.take(i + 1).last() == dependents@[i as int]@);
        out.push("--dependent-paths".to_string());
        out.push(dependents[i].clone());
        i += 1;
    }
    assert(ds.take(i as int) =~= ds);
    out
}

// ── Local tests ──

/// The cross targets to test: the one asked for, or those configured.
pub fn cross_targets(config: &SuperworkConfig, target: Option<&str>) -> (r: Vec<String>)
    ensures
        text::texts(r@) == (match target {
            Some(t) => seq![t@],
            None => text::texts(config.release.local_targets@),
        }),
{
    match target {
        Some(t) => {
            let mut v: Vec<String> = Vec::new();
            v.push(t.to_string());
            assert(text::texts(v@) =~= seq![t@]);
            v
        },
        None => crate::config::copies(&config.release.local_targets),
    }
}

/// The result of testing a repo: clippy and fmt, then the native tests and those of each cross
/// target unless only lints are asked for.
pub struct TestResults {
    pub clippy: bool,
    pub fmt: bool,
    pub native: bool,
    pub cross: Vec<bool>,
}

/// How many of the results are failures.
pub open spec fn failures(results: Seq<bool>) -> nat
    decreases results.len(),
{
    if results.len() == 0 {
        0
    } else {
        failures(results.drop_last()) + if results.last() {
            0nat
        } else {
            1nat
        }
    }
}

/// How many tests of a repo failed.
pub open spec fn test_failures(t: TestResults, lint_only: bool) -> nat {
    failures(seq![t.clippy, t.fmt]) + if lint_only {
        0
    } else {
        failures(seq![t.native]) + failures(t.cross@)
    }
}

/// Whether a repo counts as passed, and how many of its tests failed. Where only lints are
/// asked for every repo counts; otherwise its native tests decide.
pub fn tally_tests(t: &TestResults, lint_only: bool) -> (r: (bool, usize))
    requires
        t.cross@.len() <= usize::MAX - 3,
    ensures
        r.0 == (lint_only || t.native),
        r.1 == test_failures(*t, lint_only),
{
    let mut fail: usize = 0;
    proof {
        reveal_with_fuel(failures, 3);
        assert(seq![t.clippy, t.fmt].drop_last() =~= seq![t.clippy]);
        assert(seq![t.clippy].drop_last() =~= Seq::<bool>::empty());
        assert(seq![t.native].drop_last() =~= Seq::<bool>::empty());
    }
    if !t.clippy {
        fail += 1;
    }
    if !t.fmt {
        fail += 1;
    }
    if lint_only {
        return (true, fail);
    }
    if !t.native {
        fail += 1;
    }
    let ghost base = fail;
    let mut i: usize = 0;
    assert(t.cross@.take(0) =~= Seq::<bool>::empty());
    while i < t.cross.len()
        invariant
            i <= t.cross.len() <= usize::MAX - 3,
            fail <= 3 + i,
            fail == base + failures(t.cross@.take(i as int)),
        decreases t.cross.len() - i,
    {
        assert(t.cross@.take(i + 1).drop_last() =~= t.cross@.take(i as int));
        if !t.cross[i] {
            fail += 1;
        }
        i += 1;
    }
    assert(t.cross@.take(i as int) =~= t.cross@);
    (t.native, fail)
}

// ── Publishing ──

/// What follows a look at the registry after publishing.
#[derive(Debug, Clone, Copy, PartialEq, Eq, Structural)]
pub enum Verification {
    Verified,
    Retry,
    GiveUp,
}

/// What follows the attempt: three are made at most.
pub fn after_attempt(attempt: u32, stdout: &str, version: &str) -> (r: Verification)
    ensures
        r == (if text::occurs(stdout@, version@) {
            Verification::Verified
        } else if attempt < 3 {
            Verification::Retry
        } else {
            Verification::GiveUp
        }),
{
    if text::contains(stdout, version) {
        Verification::Verified
    } else if attempt < 3 {
        Verification::Retry
    } else {
        Verification::GiveUp
    }
}

/// Of a tier, every crate takes part that has been analysed and is skipped neither by its bump nor
/// by its category.
pub proof fn law_participants(analyses: TextMap<CrateAnalysis>, level: Seq<String>)
    ensures
        participants(analyses, level) == level.filter(
            |s: String|
                analyses.has(s@) && analyses@[s@].bump@ != "skip"@
                    && analyses@[s@].category@ != "skip"@,
        ).map_values(
            |s: String| s@,
        ),
    decreases level.len(),
{
    reveal(Seq::filter);
    if level.len() > 0 {
        law_participants(analyses, level.drop_last());
    }
}

/// Of a tier, the decided crates are those that take part and have a bump.
pub proof fn law_decided_crates(analyses: TextMap<CrateAnalysis>, level: Seq<String>)
    ensures
        decided(analyses, level) == level.filter(
            |s: String|
                analyses.has(s@) && analyses@[s@].bump@ != "skip"@
                    && analyses@[s@].category@ != "skip"@ && analyses@[s@].bump@.len() > 0,
        ).map_values(
            |s: String| s@,
        ),
    decreases level.len(),
{
    reveal(Seq::filter);
    if level.len() > 0 {
        law_decided_crates(analyses, level.drop_last());
    }
}

/// The crates of a list in a repo are all the known ones that lie there, in their order.
pub proof fn law_crates_in_a_repo(eco: Ecosystem, crates: Seq<String>, repo_dir: Seq<char>)
    ensures
        crates_in_repo(eco, crates, repo_dir) == crates.filter(
            |s: String| eco.crates.has(s@) && eco.crates@[s@].repo_dir@ == repo_dir,
        ).map_values(
            |s: String| s@,
        ),
    decreases crates.len(),
{
    reveal(Seq::filter);
    if crates.len() > 0 {
        law_crates_in_a_repo(eco, crates.drop_last(), repo_dir);
    }
}

/// An analysis is pending while its category is empty, whatever its bump.
pub proof fn law_uncategorized_are_counted(values: Seq<CrateAnalysis>)
    ensures
        uncategorized_in(values) == values.filter(
            |a: CrateAnalysis| a.category@.len() == 0,
        ).len(),
    decreases values.len(),
{
    reveal(Seq::filter);
    if values.len() > 0 {
        law_uncategorized_are_counted(values.drop_last());
    }
}

/// An analysis is skipped by its bump or by its category.
pub proof fn law_skipped_are_counted(values: Seq<CrateAnalysis>)
    ensures
        skipped_in(values) == values.filter(
            |a: CrateAnalysis| a.bump@ == "skip"@ || a.category@ == "skip"@,
        ).len(),
    decreases values.len(),
{
    reveal(Seq::filter);
    if values.len() > 0 {
        law_skipped_are_counted(values.drop_last());
    }
}

/// A semver check is due for each library that takes part and has no result.
pub proof fn law_semver_checks_due(
    eco: Ecosystem,
    analyses: TextMap<CrateAnalysis>,
    level: Seq<String>,
)
    ensures
        semver_due(eco, analyses, level) == level.filter(
            |s: String|
                analyses.has(s@) && analyses@[s@].bump@ != "skip"@
                    && analyses@[s@].category@ != "skip"@
                    && analyses@[s@].semver_check@.len() == 0 && eco.crates.has(s@)
                    && eco.crates@[s@].class is Library,
        ).len(),
    decreases level.len(),
{
    reveal(Seq::filter);
    if level.len() > 0 {
        law_semver_checks_due(eco, analyses, level.drop_last());
    }
}

/// An overview shows each crate of a tier; one of the uncategorized leaves out those with a
/// category, and keeps those without an analysis.
pub proof fn law_shown_crates(
    analyses: TextMap<CrateAnalysis>,
    level: Seq<String>,
    uncategorized_only: bool,
)
    ensures
        shown(analyses, level, uncategorized_only) == level.filter(
            |s: String|
                !uncategorized_only || !analyses.has(s@) || analyses@[s@].category@.len() == 0,
        ).map_values(
            |s: String| s@,
        ),
    decreases level.len(),
{
    reveal(Seq::filter);
    if level.len() > 0 {
        law_shown_crates(analyses, level.drop_last(), uncategorized_only);
    }
}

/// Only the conclusion `success` counts as one.
pub proof fn law_successes_are_counted(results: Seq<String>)
    ensures
        successes(results) == results.filter(
            |s: String| s@ == "success"@,
        ).len(),
    decreases results.len(),
{
    reveal(Seq::filter);
    if results.len() > 0 {
        law_successes_are_counted(results.drop_last());
    }
}

/// Every result that did not pass is a failure.
pub proof fn law_failures_are_counted(results: Seq<bool>)
    ensures
        failures(results) == results.filter(
            |passed: bool| !passed,
        ).len(),
    decreases results.len(),
{
    reveal(Seq::filter);
    if results.len() > 0 {
        law_failures_are_counted(results.drop_last());
    }
}

/// Every dependency on a crate counts, in whichever section.
pub proof fn law_dependents_are_counted(deps: Seq<InternalDep>, name: Seq<char>, n: nat)
    ensures
        dependents_upto(deps, name, n) == Seq::new(n, |i: int| i).filter(
            |i: int| deps[i].to_crate@ == name,
        ).len(),
    decreases n,
{
    reveal(Seq::filter);
    let all = Seq::new(n, |i: int| i);
    if n > 0 {
        law_dependents_are_counted(deps, name, (n - 1) as nat);
        assert(all.drop_last() =~= Seq::new((n - 1) as nat, |i: int| i));
        assert(all.last() == n - 1);
    } else {
        assert(all =~= Seq::<int>::empty());
    }
}

/// The directories to test against a crate are those of the known crates that depend on it, in
/// whichever section.
pub proof fn law_dependents_are_tested(eco: Ecosystem, name: Seq<char>, n: nat)
    ensures
        dependent_dirs(eco, name, n) == Seq::new(n, |i: int| i).filter(
            |i: int| eco.deps@[i].to_crate@ == name && eco.crates.has(eco.deps@[i].from_crate@),
        ).map_values(
            |i: int| path::parent(eco.crates@[eco.deps@[i].from_crate@].manifest_path@).unwrap(),
        ),
    decreases n,
{
    reveal(Seq::filter);
    let all = Seq::new(n, |i: int| i);
    if n > 0 {
        law_dependents_are_tested(eco, name, (n - 1) as nat);
        assert(all.drop_last() =~= Seq::new((n - 1) as nat, |i: int| i));
        assert(all.last() == n - 1);
    } else {
        assert(all =~= Seq::<int>::empty());
    }
}

/// A tier goes through the wave one step at a time: it is bumped, pushed, tagged, watched and, once
/// CI has passed, published. A publication that broke off is taken up again.
pub proof fn law_wave_steps(ci: CiOutcome)
    ensures
        step_for(TierStatus::Pending) == Some(WaveStep::Bump) && status_after(
            TierStatus::Pending,
            ci,
        ) == TierStatus::Bumped,
        step_for(TierStatus::Bumped) == Some(WaveStep::Push) && status_after(TierStatus::Bumped, ci)
            == TierStatus::Pushed,
        step_for(TierStatus::Pushed) == Some(WaveStep::Tag) && status_after(TierStatus::Pushed, ci)
            == TierStatus::Tagged,
        step_for(TierStatus::Tagged) == Some(WaveStep::CheckCi),
        step_for(TierStatus::CiWatching) == Some(WaveStep::CheckCi),
        ci is Passed <==> status_after(TierStatus::Tagged, ci) == TierStatus::CiPassed,
        ci is Running <==> status_after(TierStatus::Tagged, ci) == TierStatus::CiWatching,
        ci is Failed <==> status_after(TierStatus::Tagged, ci) == TierStatus::Tagged,
        ci is Passed <==> status_after(TierStatus::CiWatching, ci) == TierStatus::CiPassed,
        !(ci is Passed) <==> status_after(TierStatus::CiWatching, ci) == TierStatus::CiWatching,
        step_for(TierStatus::CiPassed) == Some(WaveStep::Publish) && status_after(
            TierStatus::CiPassed,
            ci,
        ) == TierStatus::Published,
        step_for(TierStatus::Publishing) == Some(WaveStep::RetryPublish) && status_after(
            TierStatus::Publishing,
            ci,
        ) == TierStatus::Published,
        step_for(TierStatus::Published) is None && status_after(TierStatus::Published, ci)
            == TierStatus::Published,
        forall|s: TierStatus|
            s != TierStatus::CiPassed ==> #[trigger] status_during(s) == s,
        status_during(TierStatus::CiPassed) == TierStatus::Publishing,
{
}

/// A tier is done when its stored status reads `published`, or while it has no crates; a status
/// that is no known word counts as pending.
pub proof fn law_only_published_is_done(wave: WaveState, tier: int)
    ensures
        ({
            let key = text::decimal(tier as nat);
            &&& is_open(wave, tier) <==> wave.tiers.has(key) && wave.tiers@[key].crates@.len() > 0
                && wave.tiers@[key].status@ != "published"@
            &&& status_of(wave, tier) == TierStatus::Published <==> wave.tiers.has(key)
                && wave.tiers@[key].status@ == "published"@
            &&& status_of(wave, tier) == TierStatus::CiPassed <==> wave.tiers.has(key)
                && wave.tiers@[key].status@ == "ci_passed"@
            &&& status_of(wave, tier) == TierStatus::Publishing <==> wave.tiers.has(key)
                && wave.tiers@[key].status@ == "publishing"@
            &&& status_of(wave, tier) == TierStatus::CiWatching <==> wave.tiers.has(key)
                && wave.tiers@[key].status@ == "ci_watching"@
            &&& status_of(wave, tier) == TierStatus::Tagged <==> wave.tiers.has(key)
                && wave.tiers@[key].status@ == "tagged"@
            &&& status_of(wave, tier) == TierStatus::Pushed <==> wave.tiers.has(key)
                && wave.tiers@[key].status@ == "pushed"@
            &&& status_of(wave, tier) == TierStatus::Bumped <==> wave.tiers.has(key)
                && wave.tiers@[key].status@ == "bumped"@
        }),
{
    law_status_reads_back(TierStatus::Published);
    law_status_reads_back(TierStatus::CiPassed);
    law_status_reads_back(TierStatus::Publishing);
    law_status_reads_back(TierStatus::CiWatching);
    law_status_reads_back(TierStatus::Tagged);
    law_status_reads_back(TierStatus::Pushed);
    law_status_reads_back(TierStatus::Bumped);
    law_status_reads_back(TierStatus::Pending);
}

/// The patterns that allow a failure for a list of crates are the global ones and those of each of
/// its crates.
pub proof fn law_allowed_patterns(
    config: SuperworkConfig,
    crates: Seq<String>,
    pattern: Seq<char>,
)
    ensures
        allowed_patterns(config, crates).contains(pattern) <==> text::texts(
            config.release.ci_allow_failures_global@,
        ).contains(pattern) || exists|i: int|
            0 <= i < crates.len() && config.release.ci_allow_failures.has((#[trigger] crates[i])@)
                && text::texts(config.release.ci_allow_failures@[crates[i]@]@).contains(pattern),
    decreases crates.len(),
{
    if crates.len() > 0 {
        let rest = crates.drop_last();
        law_allowed_patterns(config, rest, pattern);
        assert(crates[crates.len() - 1] == crates.last());
        assert forall|i: int| 0 <= i < rest.len() implies rest[i] == crates[i] by {}
        if config.release.ci_allow_failures.has(crates.last()@) {
            let own = text::texts(config.release.ci_allow_failures@[crates.last()@]@);
            let before = allowed_patterns(config, rest);
            group::lemma_concat_contains(before, own, pattern);
        }
    }
}

/// In the status overview only `success` passes; an allowed failure is one that a global pattern or
/// one of a crate in the repo matches; what has no conclusion is pending; all else blocks.
pub proof fn law_labels(config: SuperworkConfig, crates: Seq<String>, conclusion: Seq<char>)
    ensures
        ({
            let allowed = (exists|k: int|
                0 <= k < config.release.ci_allow_failures_global@.len() && glob::matches_end_star(
                    (#[trigger] config.release.ci_allow_failures_global@[k])@,
                    conclusion,
                )) || exists|i: int, k: int|
                0 <= i < crates.len() && config.release.ci_allow_failures.has(
                    (#[trigger] crates[i])@,
                ) && 0 <= k < config.release.ci_allow_failures@[crates[i]@]@.len()
                    && glob::matches_end_star(
                    (#[trigger] config.release.ci_allow_failures@[crates[i]@]@[k])@,
                    conclusion,
                );
            let label = label_of(config, crates, conclusion);
            &&& label == CiLabel::Pass <==> conclusion == "success"@
            &&& label == CiLabel::AllowedFailure <==> conclusion != "success"@ && allowed
            &&& label == CiLabel::Pending <==> conclusion != "success"@ && !allowed && (conclusion
                == ""@ || conclusion == "null"@)
            &&& label == CiLabel::Blocking <==> conclusion != "success"@ && !allowed && conclusion
                != ""@ && conclusion != "null"@
        }),
{
    reveal_strlit("");
    reveal_strlit("success");
    reveal_strlit("null");
    assert(""@.len() == 0 && "success"@.len() == 7 && "null"@.len() == 4);
    if conclusion.len() == 0 {
        assert(conclusion =~= ""@);
    }
    assert forall|i: int, k: int|
        0 <= i < crates.len() && config.release.ci_allow_failures.has((#[trigger] crates[i])@) && 0
            <= k < config.release.ci_allow_failures@[crates[i]@]@.len() && glob::matches_end_star(
            (#[trigger] config.release.ci_allow_failures@[crates[i]@]@[k])@,
            conclusion,
        ) implies is_allowed(config, crates, conclusion) by {
        assert(glob::matches_any(config.release.ci_allow_failures@[crates[i]@]@, conclusion));
        assert(allows(config, crates[i]@, conclusion));
    }
}

/// The repos of a list of crates are those of all its known crates, each once, in the order in
/// which they come up.
pub proof fn law_repos_of_crates(eco: Ecosystem, crates: Seq<String>, n: nat, dir: Seq<char>)
    requires
        n <= crates.len(),
    ensures
        repos_upto(eco, crates, n).no_duplicates(),
        repos_upto(eco, crates, n).contains(dir) <==> exists|i: int|
            0 <= i < n && eco.crates.has((#[trigger] crates[i])@)
                && eco.crates@[crates[i]@].repo_dir@ == dir,
        forall|m: nat| #![trigger repos_upto(eco, crates, m)]
            m <= n ==> repos_upto(eco, crates, m).is_prefix_of(repos_upto(eco, crates, n)),
    decreases n,
{
    if n > 0 {
        let k = (n - 1) as nat;
        law_repos_of_crates(eco, crates, k, dir);
        let name = crates[n - 1]@;
        if eco.crates.has(name) {
            law_repos_of_crates(eco, crates, k, eco.crates@[name].repo_dir@);
            group::lemma_push_contains(repos_upto(eco, crates, k), eco.crates@[name].repo_dir@);
        }
    }
}

/// The first missing name is one that the list lacks, and it has all before it; none is missing
/// where the list has all.
pub proof fn law_first_missing(names: Seq<Seq<char>>, list: Seq<String>, k: int)
    requires
        0 <= k <= names.len(),
    ensures
        match first_missing(names, list, k) {
            Some(name) => exists|i: int|
                k <= i < names.len() && #[trigger] names[i] == name && !text::lists(list, name)
                    && forall|j: int| k <= j < i ==> text::lists(list, #[trigger] names[j]),
            None => forall|j: int| k <= j < names.len() ==> text::lists(list, #[trigger] names[j]),
        },
    decreases names.len() - k,
{
    if k < names.len() {
        law_first_missing(names, list, k + 1);
        if text::lists(list, names[k]) && first_missing(names, list, k + 1) is Some {
            let name = first_missing(names, list, k + 1).unwrap();
            let i = choose|i: int|
                k + 1 <= i < names.len() && #[trigger] names[i] == name && !text::lists(list, name)
                    && forall|j: int| k + 1 <= j < i ==> text::lists(list, #[trigger] names[j]);
            assert(names[i] == name);
        }
    }
}

/// A crate stands in the last tier that lists it.
pub proof fn law_tier_of_a_crate(levels: Seq<Vec<String>>, name: Seq<char>, n: nat)
    requires
        n <= levels.len(),
    ensures
        match tier_of(levels, name, n) {
            Some(t) => 0 <= t < n && text::texts(levels[t]@).contains(name) && forall|j: int|
                t < j < n ==> !text::texts((#[trigger] levels[j])@).contains(name),
            None => forall|j: int|
                0 <= j < n ==> !text::texts((#[trigger] levels[j])@).contains(name),
        },
    decreases n,
{
    if n > 0 {
        law_tier_of_a_crate(levels, name, (n - 1) as nat);
        text::lemma_lists_texts(levels[n - 1]@, name);
    }
}

/// A diff is added up over its lines with three columns: the first counts lines added, the second
/// lines removed, and the third names the file. What is no number, as for a binary file, counts
/// nothing.
pub proof fn law_diffs_add_up(lines: Seq<Seq<char>>)
    ensures
        stat_of(lines).0 == lines.filter(|l: Seq<char>| text::split(l, '\t').len() >= 3).len(),
        stat_of(lines).1 == lines.filter(
            |l: Seq<char>| text::split(l, '\t').len() >= 3,
        ).fold_left(
            0nat,
            |sum: nat, l: Seq<char>|
                sum + text::parsed_number(text::split(l, '\t')[0], usize::MAX as nat).unwrap_or(0),
        ),
        stat_of(lines).2 == lines.filter(
            |l: Seq<char>| text::split(l, '\t').len() >= 3,
        ).fold_left(
            0nat,
            |sum: nat, l: Seq<char>|
                sum + text::parsed_number(text::split(l, '\t')[1], usize::MAX as nat).unwrap_or(0),
        ),
        stat_of(lines).3 == lines.filter(
            |l: Seq<char>|
                text::split(l, '\t').len() >= 3 && text::occurs(text::split(l, '\t')[2], "src/"@),
        ).len(),
    decreases lines.len(),
{
    reveal(Seq::filter);
    if lines.len() > 0 {
        law_diffs_add_up(lines.drop_last());
        let rows = |l: Seq<char>| text::split(l, '\t').len() >= 3;
        let before = lines.drop_last().filter(rows);
        assert(before.push(lines.last()).drop_last() =~= before);
    }
}

/// An analysis holds what git and the manifest say, and leaves every decision open.
pub proof fn law_analysis_decides_nothing(
    a: CrateAnalysis,
    info: CrateInfo,
    tier: Option<usize>,
    dependents: usize,
    head: Seq<char>,
    facts: Option<TagFacts>,
)
    requires
        analyses_crate(a, info, tier, dependents, head, facts),
    ensures
        a.version@ == info.version@ && a.tier == tier && a.dependents == dependents,
        a.head@ == text::trim(head),
        a.tag_found <==> facts is Some,
        facts matches Some(f) ==> a.tag@ == f.tag@ && (f.log matches Some(log) ==> text::texts(
            a.commit_subjects@,
        ) == text::lines(log@)) && (f.numstat matches Some(stat) ==> a.files_changed == stat_of(
            text::lines(stat@),
        ).0 && a.lines_added == stat_of(text::lines(stat@)).1 && a.lines_removed == stat_of(
            text::lines(stat@),
        ).2 && a.src_files_changed == stat_of(text::lines(stat@)).3),
        facts is None ==> a.tag@.len() == 0 && a.commit_count == 0 && a.files_changed == 0
            && a.lines_added == 0 && a.lines_removed == 0 && a.src_files_changed == 0,
        a.commit_count == a.commit_subjects@.len(),
        a.category@.len() == 0 && a.bump@.len() == 0 && a.reason@.len() == 0 && !a.needs_review
            && a.semver_check@.len() == 0 && a.copter@.len() == 0,
        !a.active(),
{
    if facts is None {
        assert(text::texts(a.commit_subjects@).len() == 0);
    }
}

/// A categorization is written down only where its category is one of eight and its bump one of
/// four.
pub proof fn law_known_words(category: Seq<char>, bump: Seq<char>)
    ensures
        categories().contains(category) <==> category == "breaking"@ || category == "feature"@
            || category == "fix"@ || category == "perf"@ || category == "docs"@ || category
            == "deps"@ || category == "internal"@ || category == "skip"@,
        bumps().contains(bump) <==> bump == "major"@ || bump == "minor"@ || bump == "patch"@ || bump
            == "skip"@,
{
    let c = categories();
    assert(c[0] == "breaking"@ && c[1] == "feature"@ && c[2] == "fix"@ && c[3] == "perf"@ && c[4]
        == "docs"@ && c[5] == "deps"@ && c[6] == "internal"@ && c[7] == "skip"@);
    let b = bumps();
    assert(b[0] == "major"@ && b[1] == "minor"@ && b[2] == "patch"@ && b[3] == "skip"@);
}

/// A categorization sets the category, the bump and the reason, and leaves all that was found out,
/// and all other crates, as they were.
pub proof fn law_categorizing_keeps_findings(
    was: RepoAnalysis,
    now: RepoAnalysis,
    name: Seq<char>,
    other: Seq<char>,
    category: Seq<char>,
    bump: Seq<char>,
    reason: Seq<char>,
)
    requires
        same_but_crate(was, now, name),
        recategorized(was.crates@[name], now.crates@[name], category, bump, reason),
    ensures
        now.schema_version == was.schema_version,
        now.superworkspace == was.superworkspace,
        now.generated_at == was.generated_at,
        now.crates.has(other) == was.crates.has(other),
        other != name && was.crates.has(other) ==> now.crates@[other] == was.crates@[other],
        now.crates@[name].category@ == category,
        now.crates@[name].bump@ == bump,
        now.crates@[name].reason@ == reason,
        now.crates@[name].needs_review == was.crates@[name].needs_review,
        now.crates@[name].version == was.crates@[name].version,
        now.crates@[name].tier == was.crates@[name].tier,
        now.crates@[name].dependents == was.crates@[name].dependents,
        now.crates@[name].semver_check == was.crates@[name].semver_check,
        now.crates@[name].copter == was.crates@[name].copter,
        now.crates@[name].tag == was.crates@[name].tag,
        now.crates@[name].head == was.crates@[name].head,
        now.crates@[name].commit_subjects == was.crates@[name].commit_subjects,
{
    assert(now.crates@.dom() =~= was.crates@.dom().insert(name));
    assert(now.crates@.dom().contains(other) == was.crates@.dom().contains(other));
}

/// The collection of all analyses takes in that of each named crate of a repo that has one, in
/// place of an older one, and keeps all else.
pub proof fn law_analyses_are_collected(
    all: Map<Seq<char>, CrateAnalysis>,
    repo: Map<Seq<char>, CrateAnalysis>,
    names: Seq<String>,
    name: Seq<char>,
)
    ensures
        ({
            let now = merged(all, repo, names);
            let taken = text::texts(names).contains(name) && repo.dom().contains(name);
            &&& now.dom().contains(name) <==> taken || all.dom().contains(name)
            &&& taken ==> now[name] == repo[name]
            &&& !taken && all.dom().contains(name) ==> now[name] == all[name]
        }),
    decreases names.len(),
{
    if names.len() > 0 {
        let rest = names.drop_last();
        law_analyses_are_collected(all, repo, rest, name);
        assert(text::texts(names) =~= text::texts(rest).push(names.last()@));
        group::lemma_push_contains(text::texts(rest), names.last()@);
    }
}

/// What comes next: first the analyses, then their categories, then the semver checks of the first
/// tier that lacks some, and then the release of the first tier that takes part.
pub proof fn law_next_in_order(
    step: NextStep,
    eco: Ecosystem,
    levels: Seq<Vec<String>>,
    analyses: TextMap<CrateAnalysis>,
)
    requires
        is_next(step, eco, levels, analyses),
    ensures
        step is Init <==> analyses.values().len() == 0,
        step matches NextStep::Categorize(n) ==> n > 0 && n == uncategorized_in(analyses.values()),
        !(step is Init) && !(step is Categorize) ==> uncategorized_in(analyses.values()) == 0,
        step matches NextStep::CheckSemver { tier, count } ==> tier < levels.len() && count > 0
            && count == semver_due(eco, analyses, levels[tier as int]@) && forall|t: int|
            0 <= t < tier ==> semver_due(eco, analyses, (#[trigger] levels[t])@) == 0,
        step is Release || step is Done ==> forall|t: int|
            0 <= t < levels.len() ==> semver_due(eco, analyses, (#[trigger] levels[t])@) == 0,
        step matches NextStep::Release { tier, count } ==> tier < levels.len() && count > 0 && count
            == participants(analyses, levels[tier as int]@).len() && forall|t: int|
            0 <= t < tier ==> participants(analyses, (#[trigger] levels[t])@).len() == 0,
        step is Done ==> forall|t: int|
            0 <= t < levels.len() ==> participants(analyses, (#[trigger] levels[t])@).len() == 0,
{
    lemma_first_semver_due(eco, analyses, levels, 0);
    lemma_first_ready(analyses, levels, 0);
}

proof fn lemma_first_semver_due(
    eco: Ecosystem,
    analyses: TextMap<CrateAnalysis>,
    levels: Seq<Vec<String>>,
    k: int,
)
    requires
        0 <= k <= levels.len(),
    ensures
        match first_semver_due(eco, analyses, levels, k) {
            Some(t) => k <= t < levels.len() && semver_due(eco, analyses, levels[t]@) > 0
                && forall|j: int|
                k <= j < t ==> semver_due(eco, analyses, (#[trigger] levels[j])@) == 0,
            None => forall|j: int|
                k <= j < levels.len() ==> semver_due(eco, analyses, (#[trigger] levels[j])@) == 0,
        },
    decreases levels.len() - k,
{
    if k < levels.len() {
        lemma_first_semver_due(eco, analyses, levels, k + 1);
    }
}

proof fn lemma_first_ready(
    analyses: TextMap<CrateAnalysis>,
    levels: Seq<Vec<String>>,
    k: int,
)
    requires
        0 <= k <= levels.len(),
    ensures
        match first_ready(analyses, levels, k) {
            Some(t) => k <= t < levels.len() && participants(analyses, levels[t]@).len() > 0
                && forall|j: int|
                k <= j < t ==> participants(analyses, (#[trigger] levels[j])@).len() == 0,
            None => forall|j: int|
                k <= j < levels.len()
                    ==> participants(analyses, (#[trigger] levels[j])@).len() == 0,
        },
    decreases levels.len() - k,
{
    if k < levels.len() {
        lemma_first_ready(analyses, levels, k + 1);
    }
}

/// A copter run names every dependent, each behind its own option, in order.
pub proof fn law_copter_names_dependents(dir: Seq<char>, dependents: Seq<Seq<char>>, i: int)
    ensures
        copter_args_for(dir, dependents).len() == 5 + 2 * dependents.len(),
        copter_args_for(dir, dependents).take(5) == seq![
            "copter"@,
            "-p"@,
            dir,
            "--only-check"@,
            "--simple"@,
        ],
        0 <= i < dependents.len() ==> copter_args_for(dir, dependents)[5 + 2 * i]
            == "--dependent-paths"@,
        0 <= i < dependents.len() ==> copter_args_for(dir, dependents)[6 + 2 * i] == dependents[i],
    decreases dependents.len(),
{
    let args = copter_args_for(dir, dependents);
    if dependents.len() > 0 {
        let rest = dependents.drop_last();
        let before = copter_args_for(dir, rest);
        law_copter_names_dependents(dir, rest, i);
        assert(args == before.push("--dependent-paths"@).push(dependents.last()));
        assert(args.take(5) =~= before.take(5));
        if 0 <= i < rest.len() {
            assert(rest[i] == dependents[i]);
            assert(before[5 + 2 * i] == args[5 + 2 * i]);
            assert(before[6 + 2 * i] == args[6 + 2 * i]);
        }
    } else {
        assert(args.take(5) =~= args);
    }
}

/// Lints always count. The native test and the cross tests count unless only lints were asked for.
pub proof fn law_test_failures(t: TestResults)
    ensures
        test_failures(t, true) == (if t.clippy {
            0nat
        } else {
            1nat
        }) + (if t.fmt {
            0nat
        } else {
            1nat
        }),
        test_failures(t, false) == test_failures(t, true) + (if t.native {
            0nat
        } else {
            1nat
        }) + t.cross@.filter(|passed: bool| !passed).len(),
{
    reveal_with_fuel(failures, 3);
    law_failures_are_counted(t.cross@);
    assert(seq![t.clippy, t.fmt].drop_last() =~= seq![t.clippy]);
    assert(seq![t.clippy].drop_last() =~= Seq::<bool>::empty());
    assert(seq![t.native].drop_last() =~= Seq::<bool>::empty());
}

/// A semver check that ran to its end either passes or, by the exit code of a breaking change,
/// breaks; any other end is an error, told by its first line.
pub proof fn law_semver_results(outcome: CommandOutcome)
    ensures
        outcome is Success ==> semver_result(outcome) == "pass"@,
        outcome matches CommandOutcome::Failure { code, stderr } ==> (code == Some(1i32)
            ==> semver_result(outcome) == "breaking"@) && (code != Some(1i32) ==> semver_result(
            outcome,
        ) == "error: "@ + (if text::lines(stderr@).len() == 0 {
            Seq::<char>::empty()
        } else {
            text::lines(stderr@)[0]
        })),
        outcome matches CommandOutcome::NotRun(e) ==> semver_result(outcome) == "error: "@ + e@,
{
}

/// The subcommands that change files, repos or the registry are the ones that a dry run holds back.
pub proof fn law_changing_commands(command: ReleaseCommand)
    ensures
        !only_reads(command) <==> command is Wave || command is Init || command is Categorize
            || command is Check || command is Bump || command is Tag || command is Publish,
{
}

/// Setting up a wave leaves the tiers that it knows as they were, and sets every other tier that
/// has decided crates to pending, with all of these.
pub proof fn law_known_tiers_stay(
    was: WaveState,
    now: WaveState,
    levels: Seq<Vec<String>>,
    analyses: TextMap<CrateAnalysis>,
    tier: int,
)
    requires
        tiers_set_up(was, now, levels, analyses),
        0 <= tier < levels.len(),
    ensures
        was.tiers.has(text::decimal(tier as nat)) ==> now.tiers.has(text::decimal(tier as nat))
            && now.tiers@[text::decimal(tier as nat)] == was.tiers@[text::decimal(tier as nat)],
        !was.tiers.has(text::decimal(tier as nat)) ==> (now.tiers.has(text::decimal(tier as nat))
            <==> decided(analyses, levels[tier]@).len() > 0) && crates_of(now, tier) == decided(
            analyses,
            levels[tier]@,
        ) && status_of(now, tier) == TierStatus::Pending,
{
    assert(tier_set_up(was, now, tier, decided(analyses, levels[tier]@)));
    law_status_reads_back(TierStatus::Pending);
    if !was.tiers.has(text::decimal(tier as nat)) && decided(analyses, levels[tier]@).len() == 0 {
        assert(crates_of(now, tier) =~= decided(analyses, levels[tier]@));
    }
}

/// Writing down an entry changes no other.
pub proof fn law_entries_are_kept(
    was: Map<Seq<char>, String>,
    now: Map<Seq<char>, String>,
    key: Seq<char>,
    entry: Option<Seq<char>>,
    other: Seq<char>,
)
    requires
        taken_in(was, now, key, entry),
    ensures
        entry is Some ==> now.dom().contains(key) && now[key]@ == entry.unwrap(),
        other != key || entry is None ==> now.dom().contains(other) == was.dom().contains(other),
        (other != key || entry is None) && was.dom().contains(other) ==> now[other] == was[other],
{
}

/// Setting up a wave leaves alone what it holds beyond the tiers of the release.
pub proof fn law_foreign_tiers_stay(
    was: WaveState,
    now: WaveState,
    levels: Seq<Vec<String>>,
    analyses: TextMap<CrateAnalysis>,
    key: Seq<char>,
)
    requires
        tiers_set_up(was, now, levels, analyses),
        forall|t: int| 0 <= t < levels.len() ==> #[trigger] text::decimal(t as nat) != key,
    ensures
        now.tiers.has(key) == was.tiers.has(key),
        was.tiers.has(key) ==> now.tiers@[key] == was.tiers@[key],
        now.started_at == was.started_at,
        now.workspace == was.workspace,
{
    assert forall|t: int| 0 <= t < levels.len() implies key != #[trigger] tier_key(t) by {
        assert(text::decimal(t as nat) != key);
    }
    assert(is_foreign(key, levels.len() as int));
}

/// An analysis that is the same as another says the same of every crate.
pub proof fn law_same_analyses(was: RepoAnalysis, now: RepoAnalysis, name: Seq<char>)
    requires
        same_analysis(was, now),
    ensures
        now.crates@.dom().contains(name) == was.crates@.dom().contains(name),
        now.crates@[name] == was.crates@[name],
        now.generated_at == was.generated_at,
{
}

/// Setting the status of a tier keeps its CI runs and results, and its crates where it has some.
pub proof fn law_status_set_keeps_the_rest(
    was: WaveState,
    now: WaveState,
    tier: int,
    status: TierStatus,
    crates: Seq<Seq<char>>,
)
    requires
        status_set(was, now, tier, status, crates),
    ensures
        crates_of(was, tier).len() > 0
            ==> text::texts(now.tiers@[text::decimal(tier as nat)].crates@)
            == crates_of(was, tier),
        crates_of(was, tier).len() == 0 ==> text::texts(
            now.tiers@[text::decimal(tier as nat)].crates@,
        ) == crates,
        was.tiers.has(text::decimal(tier as nat)) ==> now.tiers@[text::decimal(tier as nat)].ci_runs
            == was.tiers@[text::decimal(tier as nat)].ci_runs
            && now.tiers@[text::decimal(tier as nat)].ci_results
            == was.tiers@[text::decimal(tier as nat)].ci_results,
        now.started_at == was.started_at,
        now.workspace == was.workspace,
{
}

} // verus!
