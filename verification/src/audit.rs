//! Health checks across the ecosystem: edition, license, badges, docs, clutter, CI, issues.

use vstd::prelude::*;
use vstd::string::*;

use crate::config::SuperworkConfig;
use crate::text;

verus! {

broadcast use {text::lemma_texts_push, text::lemma_pairs_push};

/// What the checks read of a crate.
pub struct CrateFacts {
    pub name: String,
    pub publishable: bool,
    /// The contents of its manifest, where that can be read.
    pub manifest: Option<String>,
    /// The contents of its `src/lib.rs`, where there is one.
    pub lib_rs: Option<String>,
}

/// What the checks read of a repo.
pub struct RepoFacts {
    pub dir: String,
    /// Names of the files that exist at its root.
    pub files: Vec<String>,
    /// Those of them that git tracks.
    pub in_git: Vec<String>,
    /// The contents of its `README.md`, where there is one.
    pub readme: Option<String>,
    pub crates: Vec<CrateFacts>,
}

/// What the checks found.
pub struct AuditReport {
    /// Crate and its edition line.
    pub edition_issues: Vec<(String, String)>,
    /// Repos without a license file.
    pub license_issues: Vec<String>,
    /// Repo and what its README lacks.
    pub badge_issues: Vec<(String, String)>,
    /// Repo or crate and what is not documented.
    pub docs_issues: Vec<(String, String)>,
    /// Repo and its untracked clutter.
    pub clutter_files: Vec<(String, Vec<String>)>,
}

// ── Edition ──

/// Whether a line settles the edition.
pub open spec fn settles_edition(line: Seq<char>) -> bool {
    text::trim(line) == "edition = \"2024\""@ || text::occurs(
        text::trim(line),
        "edition.workspace = true"@,
    )
}

pub open spec fn has_current_edition(content: Seq<char>) -> bool {
    exists|i: int|
        0 <= i < text::lines(content).len() && settles_edition(#[trigger] text::lines(content)[i])
}

/// The first line from `i` on that speaks of an edition, or a note that there is none.
pub open spec fn edition_line(lines: Seq<Seq<char>>, i: int) -> Seq<char>
    decreases lines.len() - i,
{
    if i < 0 || i >= lines.len() {
        "missing"@
    } else if "edition"@.is_prefix_of(text::trim(lines[i])) {
        text::trim(lines[i])
    } else {
        edition_line(lines, i + 1)
    }
}

pub open spec fn editions_of(crates: Seq<CrateFacts>) -> Seq<(Seq<char>, Seq<char>)>
    decreases crates.len(),
{
    if crates.len() == 0 {
        Seq::empty()
    } else {
        let before = editions_of(crates.drop_last());
        match crates.last().manifest {
            Some(content) => if has_current_edition(content@) {
                before
            } else {
                before.push((crates.last().name@, edition_line(text::lines(content@), 0)))
            },
            None => before,
        }
    }
}

pub open spec fn all_editions(repos: Seq<RepoFacts>) -> Seq<(Seq<char>, Seq<char>)>
    decreases repos.len(),
{
    if repos.len() == 0 {
        Seq::empty()
    } else {
        all_editions(repos.drop_last()) + editions_of(repos.last().crates@)
    }
}

/// The edition that a manifest names, where it is not the current one.
pub fn edition_issue(content: &str) -> (r: Option<String>)
    ensures
        match r {
            Some(e) => !has_current_edition(content@) && e@ == edition_line(
                text::lines(content@),
                0,
            ),
            None => has_current_edition(content@),
        },
{
    let ls = text::lines_of(content);
    let ghost all = text::lines(content@);
    let mut i: usize = 0;
    while i < ls.len()
        invariant
            i <= ls.len(),
            all == text::texts(ls@),
            forall|j: int| 0 <= j < i ==> !settles_edition(#[trigger] all[j]),
        decreases ls.len() - i,
    {
        let t = text::trimmed(ls[i].as_str());
        assert(all[i as int] == ls@[i as int]@);
        if text::same(t.as_str(), "edition = \"2024\"") || text::contains(
            t.as_str(),
            "edition.workspace = true",
        ) {
            assert(settles_edition(all[i as int]));
            return None;
        }
        i += 1;
    }
    let mut k: usize = 0;
    while k < ls.len()
        invariant
            k <= ls.len(),
            all == text::texts(ls@),
            edition_line(all, k as int) == edition_line(all, 0),
        decreases ls.len() - k,
    {
        let t = text::trimmed(ls[k].as_str());
        assert(all[k as int] == ls@[k as int]@);
        if text::leads_with(t.as_str(), "edition") {
            return Some(t);
        }
        k += 1;
    }
    Some("missing".to_string())
}

// ── License ──

pub open spec fn has_license(repo: RepoFacts) -> bool {
    text::lists(repo.files@, "LICENSE"@) || text::lists(repo.files@, "LICENSE-AGPL3"@)
        || text::lists(repo.files@, "LICENSE-MIT"@) || text::lists(repo.files@, "LICENSE-APACHE"@)
}

pub open spec fn unlicensed(repos: Seq<RepoFacts>) -> Seq<Seq<char>>
    decreases repos.len(),
{
    if repos.len() == 0 {
        Seq::empty()
    } else if has_license(repos.last()) {
        unlicensed(repos.drop_last())
    } else {
        unlicensed(repos.drop_last()).push(repos.last().dir@)
    }
}

// ── Badges ──

/// What a README lacks, as a list of notes.
pub open spec fn missing_badges(readme: Seq<char>) -> Seq<Seq<char>> {
    if !text::occurs(readme, "img.shields.io"@) && !text::occurs(readme, "badge"@) {
        seq!["no badges at all"@]
    } else {
        let ci = if text::occurs(readme, "actions/workflow"@) {
            Seq::<Seq<char>>::empty()
        } else {
            seq!["CI badge"@]
        };
        let registry = if text::occurs(readme, "crates.io"@) || text::occurs(
            readme,
            "crates/v/"@,
        ) {
            Seq::<Seq<char>>::empty()
        } else {
            seq!["crates.io badge"@]
        };
        let docs = if text::occurs(readme, "docs.rs"@) || text::occurs(readme, "docsrs"@) {
            Seq::<Seq<char>>::empty()
        } else {
            seq!["docs.rs badge"@]
        };
        ci + registry + docs
    }
}

pub open spec fn any_publishable(crates: Seq<CrateFacts>) -> bool {
    exists|i: int| 0 <= i < crates.len() && (#[trigger] crates[i]).publishable
}

pub open spec fn badge_gaps(repos: Seq<RepoFacts>) -> Seq<(Seq<char>, Seq<char>)>
    decreases repos.len(),
{
    if repos.len() == 0 {
        Seq::empty()
    } else {
        let before = badge_gaps(repos.drop_last());
        match repos.last().readme {
            Some(readme) => if any_publishable(repos.last().crates@) && missing_badges(
                readme@,
            ).len() > 0 {
                before.push((repos.last().dir@, text::join(missing_badges(readme@), ", "@)))
            } else {
                before
            },
            None => before,
        }
    }
}

/// What a README lacks, as a list of notes.
pub fn badges_missing(readme: &str) -> (r: Vec<String>)
    ensures
        text::texts(r@) == missing_badges(readme@),
{
    let mut missing: Vec<String> = Vec::new();
    if !text::contains(readme, "img.shields.io") && !text::contains(readme, "badge") {
        missing.push("no badges at all".to_string());
        assert(text::texts(missing@) =~= missing_badges(readme@));
        return missing;
    }
    if !text::contains(readme, "actions/workflow") {
        missing.push("CI badge".to_string());
    }
    if !text::contains(readme, "crates.io") && !text::contains(readme, "crates/v/") {
        missing.push("crates.io badge".to_string());
    }
    if !text::contains(readme, "docs.rs") && !text::contains(readme, "docsrs") {
        missing.push("docs.rs badge".to_string());
    }
    assert(text::texts(missing@) =~= missing_badges(readme@));
    missing
}

fn has_publishable(crates: &Vec<CrateFacts>) -> (r: bool)
    ensures
        r == any_publishable(crates@),
{
    let mut i: usize = 0;
    while i < crates.len()
        invariant
            i <= crates.len(),
            forall|j: int| 0 <= j < i ==> !(#[trigger] crates@[j]).publishable,
        decreases crates.len() - i,
    {
        if crates[i].publishable {
            return true;
        }
        i += 1;
    }
    false
}

// ── Docs ──

/// Whether the source starts with a doc comment or an inner attribute.
pub open spec fn is_documented(source: Seq<char>) -> bool {
    "//!"@.is_prefix_of(source) || "#!"@.is_prefix_of(source)
}

pub open spec fn undocumented(crates: Seq<CrateFacts>) -> Seq<(Seq<char>, Seq<char>)>
    decreases crates.len(),
{
    if crates.len() == 0 {
        Seq::empty()
    } else {
        let before = undocumented(crates.drop_last());
        match crates.last().lib_rs {
            Some(source) => if is_documented(source@) {
                before
            } else {
                before.push((crates.last().name@, "src/lib.rs missing //! doc comment"@))
            },
            None => before,
        }
    }
}

pub open spec fn docs_gaps(repos: Seq<RepoFacts>) -> Seq<(Seq<char>, Seq<char>)>
    decreases repos.len(),
{
    if repos.len() == 0 {
        Seq::empty()
    } else {
        let before = docs_gaps(repos.drop_last());
        let readme = if repos.last().readme is Some {
            Seq::<(Seq<char>, Seq<char>)>::empty()
        } else {
            seq![(repos.last().dir@, "no README.md"@)]
        };
        before + readme + undocumented(repos.last().crates@)
    }
}

// ── Clutter ──

/// The names that generated artifacts go by.
pub open spec fn clutter_names() -> Seq<Seq<char>> {
    seq![
        "SUMMARY.md"@,
        "PLAN.md"@,
        "ANALYSIS.md"@,
        "REVIEW.md"@,
        "NOTES.md"@,
        "CHANGES.md"@,
        "IMPLEMENTATION.md"@,
        "DESIGN.md"@,
        "ARCHITECTURE.md"@,
        "STRATEGY.md"@,
    ]
}

/// The clutter of a repo among the first `n` names: files that exist and git does not track.
pub open spec fn clutter_of(repo: RepoFacts, n: nat) -> Seq<Seq<char>>
    decreases n,
{
    if n == 0 {
        Seq::empty()
    } else {
        let before = clutter_of(repo, (n - 1) as nat);
        let name = clutter_names()[n - 1];
        if text::lists(repo.files@, name) && !text::lists(repo.in_git@, name) {
            before.push(name)
        } else {
            before
        }
    }
}

/// What a list of repos with files says.
pub open spec fn cluttered(v: Seq<(String, Vec<String>)>) -> Seq<(Seq<char>, Seq<Seq<char>>)> {
    v.map_values(|p: (String, Vec<String>)| (p.0@, text::texts(p.1@)))
}

pub open spec fn all_clutter(repos: Seq<RepoFacts>) -> Seq<(Seq<char>, Seq<Seq<char>>)>
    decreases repos.len(),
{
    if repos.len() == 0 {
        Seq::empty()
    } else {
        let before = all_clutter(repos.drop_last());
        let names = clutter_of(repos.last(), clutter_names().len());
        if names.len() > 0 {
            before.push((repos.last().dir@, names))
        } else {
            before
        }
    }
}

/// The names that generated artifacts go by.
pub fn clutter_patterns() -> (r: Vec<String>)
    ensures
        text::texts(r@) == clutter_names(),
{
    let mut v: Vec<String> = Vec::new();
    v.push("SUMMARY.md".to_string());
    v.push("PLAN.md".to_string());
    v.push("ANALYSIS.md".to_string());
    v.push("REVIEW.md".to_string());
    v.push("NOTES.md".to_string());
    v.push("CHANGES.md".to_string());
    v.push("IMPLEMENTATION.md".to_string());
    v.push("DESIGN.md".to_string());
    v.push("ARCHITECTURE.md".to_string());
    v.push("STRATEGY.md".to_string());
    assert(text::texts(v@) =~= clutter_names());
    v
}

/// The clutter of a repo.
pub fn find_clutter(repo: &RepoFacts) -> (r: Vec<String>)
    ensures
        text::texts(r@) == clutter_of(*repo, clutter_names().len()),
{
    let names = clutter_patterns();
    let mut out: Vec<String> = Vec::new();
    let mut i: usize = 0;
    assert(text::texts(out@) =~= Seq::<Seq<char>>::empty());
    assert(names.len() == text::texts(names@).len());
    while i < names.len()
        invariant
            i <= names.len(),
            text::texts(names@) == clutter_names(),
            text::texts(out@) == clutter_of(*repo, i as nat),
        decreases names.len() - i,
    {
        assert(clutter_names()[i as int] == names@[i as int]@);
        if text::holds(&repo.files, names[i].as_str()) && !text::holds(
            &repo.in_git,
            names[i].as_str(),
        ) {
            out.push(names[i].clone());
        }
        i += 1;
    }
    out
}

// ── The report ──

/// Whether the report holds exactly what the checks find.
pub open spec fn reports(r: AuditReport, repos: Seq<RepoFacts>) -> bool {
    &&& text::pairs(r.edition_issues@) == all_editions(repos)
    &&& text::texts(r.license_issues@) == unlicensed(repos)
    &&& text::pairs(r.badge_issues@) == badge_gaps(repos)
    &&& text::pairs(r.docs_issues@) == docs_gaps(repos)
    &&& cluttered(r.clutter_files@) == all_clutter(repos)
}

fn audit_editions(crates: &Vec<CrateFacts>, out: &mut Vec<(String, String)>)
    ensures
        text::pairs(final(out)@) == text::pairs(old(out)@) + editions_of(crates@),
{
    let ghost start = text::pairs(out@);
    let mut i: usize = 0;
    assert(crates@.take(0) =~= Seq::<CrateFacts>::empty());
    assert(text::pairs(out@) =~= start + editions_of(crates@.take(0)));
    while i < crates.len()
        invariant
            i <= crates.len(),
            text::pairs(out@) == start + editions_of(crates@.take(i as int)),
        decreases crates.len() - i,
    {
        assert(crates@.take(i + 1).drop_last() =~= crates@.take(i as int));
        if let Some(content) = &crates[i].manifest {
            if let Some(edition) = edition_issue(content.as_str()) {
                let ghost sofar = text::pairs(out@);
                out.push((crates[i].name.clone(), edition));
                assert(text::pairs(out@) =~= start + editions_of(crates@.take(i + 1)));
            }
        }
        i += 1;
    }
    assert(crates@.take(i as int) =~= crates@);
}

fn audit_docs(crates: &Vec<CrateFacts>, out: &mut Vec<(String, String)>)
    ensures
        text::pairs(final(out)@) == text::pairs(old(out)@) + undocumented(crates@),
{
    let ghost start = text::pairs(out@);
    let mut i: usize = 0;
    assert(crates@.take(0) =~= Seq::<CrateFacts>::empty());
    assert(text::pairs(out@) =~= start + undocumented(crates@.take(0)));
    while i < crates.len()
        invariant
            i <= crates.len(),
            text::pairs(out@) == start + undocumented(crates@.take(i as int)),
        decreases crates.len() - i,
    {
        assert(crates@.take(i + 1).drop_last() =~= crates@.take(i as int));
        if let Some(source) = &crates[i].lib_rs {
            if !text::leads_with(source.as_str(), "//!") && !text::leads_with(
                source.as_str(),
                "#!",
            ) {
                out.push(
                    (crates[i].name.clone(), "src/lib.rs missing //! doc comment".to_string()),
                );
                assert(text::pairs(out@) =~= start + undocumented(crates@.take(i + 1)));
            }
        }
        i += 1;
    }
    assert(crates@.take(i as int) =~= crates@);
}

/// Run the checks on what is known of the repos.
pub fn audit(repos: &Vec<RepoFacts>) -> (r: AuditReport)
    ensures
        reports(r, repos@),
{
    let mut editions: Vec<(String, String)> = Vec::new();
    let mut licenses: Vec<String> = Vec::new();
    let mut badges: Vec<(String, String)> = Vec::new();
    let mut docs: Vec<(String, String)> = Vec::new();
    let mut clutter: Vec<(String, Vec<String>)> = Vec::new();
    let mut i: usize = 0;
    proof {
        let none = repos@.take(0);
        assert(none =~= Seq::<RepoFacts>::empty());
        assert(text::pairs(editions@) =~= all_editions(none));
        assert(text::texts(licenses@) =~= unlicensed(none));
        assert(text::pairs(badges@) =~= badge_gaps(none));
        assert(text::pairs(docs@) =~= docs_gaps(none));
        assert(cluttered(clutter@) =~= all_clutter(none));
    }
    while i < repos.len()
        invariant
            i <= repos.len(),
            text::pairs(editions@) == all_editions(repos@.take(i as int)),
            text::texts(licenses@) == unlicensed(repos@.take(i as int)),
            text::pairs(badges@) == badge_gaps(repos@.take(i as int)),
            text::pairs(docs@) == docs_gaps(repos@.take(i as int)),
            cluttered(clutter@) == all_clutter(repos@.take(i as int)),
        decreases repos.len() - i,
    {
        let repo = &repos[i];
        let ghost next = repos@.take(i + 1);
        assert(next.drop_last() =~= repos@.take(i as int));
        assert(next.last() == *repo);
        audit_editions(&repo.crates, &mut editions);
        if !(text::holds(&repo.files, "LICENSE") || text::holds(&repo.files, "LICENSE-AGPL3")
            || text::holds(&repo.files, "LICENSE-MIT") || text::holds(
            &repo.files,
            "LICENSE-APACHE",
        )) {
            licenses.push(repo.dir.clone());
        }
        match &repo.readme {
            Some(readme) => {
                if has_publishable(&repo.crates) {
                    let missing = badges_missing(readme.as_str());
                    assert(text::texts(missing@).len() == missing.len());
                    if missing.len() > 0 {
                        badges.push((repo.dir.clone(), text::join_with(&missing, ", ")));
                    }
                }
                assert(docs_gaps(next) =~= docs_gaps(repos@.take(i as int)) + undocumented(
                    repo.crates@,
                ));
            },
            None => {
                docs.push((repo.dir.clone(), "no README.md".to_string()));
                assert(docs_gaps(next) =~= docs_gaps(repos@.take(i as int)).push(
                    (repo.dir@, "no README.md"@),
                ) + undocumented(repo.crates@));
            },
        }
        audit_docs(&repo.crates, &mut docs);
        let names = find_clutter(repo);
        assert(text::texts(names@).len() == names.len());
        if names.len() > 0 {
            let ghost sofar = cluttered(clutter@);
            let ghost files = text::texts(names@);
            clutter.push((repo.dir.clone(), names));
            assert(cluttered(clutter@) =~= sofar.push((repo.dir@, files)));
        }
        i += 1;
    }
    assert(repos@.take(i as int) =~= repos@);
    AuditReport {
        edition_issues: editions,
        license_issues: licenses,
        badge_issues: badges,
        docs_issues: docs,
        clutter_files: clutter,
    }
}

impl AuditReport {
    /// The number of findings, those of CI among them.
    pub open spec fn total(self, ci_failures: int) -> int {
        self.edition_issues@.len() + self.license_issues@.len() + self.badge_issues@.len()
            + self.docs_issues@.len() + self.clutter_files@.len() + ci_failures
    }

    /// The number of findings, those of CI among them, where it can be counted.
    pub fn total_issues(&self, ci_failures: usize) -> (r: Option<usize>)
        ensures
            match r {
                Some(n) => n == self.total(ci_failures as int),
                None => self.total(ci_failures as int) > usize::MAX,
            },
    {
        let a = self.edition_issues.len().checked_add(self.license_issues.len())?;
        let b = a.checked_add(self.badge_issues.len())?;
        let c = b.checked_add(self.docs_issues.len())?;
        let d = c.checked_add(self.clutter_files.len())?;
        d.checked_add(ci_failures)
    }
}

// ── GitHub ──

/// The "org/repo" of a GitHub URL.
pub open spec fn slug(url: Seq<char>) -> Option<Seq<char>> {
    match text::after_prefix(url, "https://github.com/"@) {
        Some(rest) => Some(text::without_ends(rest, ".git"@)),
        None => None,
    }
}

/// The "org/repo" of a GitHub URL.
pub fn slug_of(url: &str) -> (r: Option<String>)
    ensures
        text::opt(r) == slug(url@),
{
    proof {
        reveal_strlit(".git");
    }
    match text::strip_lead(url, "https://github.com/") {
        Some(rest) => Some(text::trim_ends(rest.as_str(), ".git")),
        None => None,
    }
}

/// The slugs of the repos that have one.
pub open spec fn slugs(config: SuperworkConfig, dirs: Seq<Seq<char>>) -> Seq<Seq<char>>
    decreases dirs.len(),
{
    if dirs.len() == 0 {
        Seq::empty()
    } else {
        let before = slugs(config, dirs.drop_last());
        match config.url_of(dirs.last()) {
            Some(url) => match slug(url) {
                Some(s) => before.push(s),
                None => before,
            },
            None => before,
        }
    }
}

/// The slugs of the repos that have one.
pub fn github_repos(config: &SuperworkConfig, dirs: &Vec<String>) -> (r: Vec<String>)
    ensures
        text::texts(r@) == slugs(*config, text::texts(dirs@)),
{
    let mut out: Vec<String> = Vec::new();
    let mut i: usize = 0;
    let ghost ds = text::texts(dirs@);
    assert(ds.take(0) =~= Seq::<Seq<char>>::empty());
    assert(text::texts(out@) =~= slugs(*config, ds.take(0)));
    while i < dirs.len()
        invariant
            i <= dirs.len(),
            ds == text::texts(dirs@),
            text::texts(out@) == slugs(*config, ds.take(i as int)),
        decreases dirs.len() - i,
    {
        assert(ds.take(i + 1).drop_last() =~= ds.take(i as int));
        assert(ds.take(i + 1).last() == dirs@[i as int]@);
        if let Some(url) = config.github_url_for(dirs[i].as_str()) {
            if let Some(s) = slug_of(url.as_str()) {
                out.push(s);
            }
        }
        i += 1;
    }
    assert(ds.take(i as int) =~= ds);
    out
}

/// The conclusion of the latest CI run, given what the query printed.
pub open spec fn conclusion(stdout: Seq<char>) -> Seq<char> {
    if text::trim(stdout).len() == 0 {
        "no_runs"@
    } else {
        text::trim(stdout)
    }
}

/// The conclusion of the latest CI run, given what the query printed.
pub fn ci_conclusion(stdout: &str) -> (r: String)
    ensures
        r@ == conclusion(stdout@),
{
    let t = text::trimmed(stdout);
    if t.as_str().is_empty() {
        "no_runs".to_string()
    } else {
        t
    }
}

/// Whether a conclusion is worth reporting.
pub fn is_ci_failure(status: &str) -> (r: bool)
    ensures
        r == (status@ != "success"@ && status@ != "no_runs"@),
{
    !text::same(status, "success") && !text::same(status, "no_runs")
}

/// The issue that a piece of the listing describes.
pub open spec fn issue_in(segment: Seq<char>) -> Option<(nat, Seq<char>)> {
    let number = match text::after_first(segment, "\"number\":"@) {
        Some(s) => text::parsed_number(text::trim(text::upto(s, ',', '}')), u64::MAX as nat),
        None => None,
    };
    let title = match text::after_first(segment, "\"title\":\""@) {
        Some(s) => Some(text::upto(s, '"', '"')),
        None => None,
    };
    match (number, title) {
        (Some(n), Some(t)) => Some((n, t)),
        _ => None,
    }
}

/// The issues that a list of pieces describes.
pub open spec fn issues_in(segments: Seq<Seq<char>>) -> Seq<(nat, Seq<char>)>
    decreases segments.len(),
{
    if segments.len() == 0 {
        Seq::empty()
    } else {
        match issue_in(segments.last()) {
            Some(x) => issues_in(segments.drop_last()).push(x),
            None => issues_in(segments.drop_last()),
        }
    }
}

/// What a list of issues says.
pub open spec fn issues(v: Seq<(u64, String)>) -> Seq<(nat, Seq<char>)> {
    v.map_values(|p: (u64, String)| (p.0 as nat, p.1@))
}

fn read_issue(segment: &str) -> (r: Option<(u64, String)>)
    ensures
        match r {
            Some(x) => issue_in(segment@) == Some((x.0 as nat, x.1@)),
            None => issue_in(segment@) is None,
        },
{
    proof {
        reveal_strlit("\"number\":");
        reveal_strlit("\"title\":\"");
    }
    let number = match text::piece_after(segment, "\"number\":") {
        Some(s) => {
            let upto = text::upto_either(s.as_str(), ',', '}');
            let t = text::trimmed(upto.as_str());
            text::parse_number(t.as_str())
        },
        None => None,
    };
    let title = match text::piece_after(segment, "\"title\":\"") {
        Some(s) => Some(text::upto_either(s.as_str(), '"', '"')),
        None => None,
    };
    match (number, title) {
        (Some(n), Some(t)) => Some((n, t)),
        _ => None,
    }
}

/// The issues in a listing of objects with a number and a title.
pub fn parse_open_issues(stdout: &str) -> (r: Vec<(u64, String)>)
    ensures
        issues(r@) == issues_in(text::split(stdout@, '{').drop_first()),
{
    let pieces = text::split_on(stdout, '{');
    let ghost ps = text::split(stdout@, '{');
    let mut out: Vec<(u64, String)> = Vec::new();
    let mut i: usize = 1;
    assert(ps.subrange(1, 1) =~= Seq::<Seq<char>>::empty());
    assert(issues(out@) =~= issues_in(ps.subrange(1, 1)));
    while i < pieces.len()
        invariant
            1 <= i <= pieces.len(),
            ps == text::texts(pieces@),
            issues(out@) == issues_in(ps.subrange(1, i as int)),
        decreases pieces.len() - i,
    {
        assert(ps.subrange(1, i + 1).drop_last() =~= ps.subrange(1, i as int));
        assert(ps.subrange(1, i + 1).last() == pieces@[i as int]@);
        if let Some(x) = read_issue(pieces[i].as_str()) {
            let ghost sofar = issues(out@);
            out.push(x);
            assert(issues(out@) =~= sofar.push((x.0 as nat, x.1@)));
        }
        i += 1;
    }
    assert(ps.subrange(1, i as int) =~= ps.drop_first());
    out
}

/// A crate with a manifest is told of unless a line of it is that of the current edition or takes
/// the edition from the workspace.
pub proof fn law_old_editions(crates: Seq<CrateFacts>)
    ensures
        editions_of(crates) == crates.filter(
            |c: CrateFacts|
                c.manifest is Some
                    && !exists|i: int| 0 <= i < text::lines(c.manifest.unwrap()@).len()
                    && (text::trim(#[trigger] text::lines(c.manifest.unwrap()@)[i])
                    == "edition = \"2024\""@
                    || text::occurs(text::trim(text::lines(c.manifest.unwrap()@)[i]),
                    "edition.workspace = true"@)),
        ).map_values(
            |c: CrateFacts| (c.name@, edition_line(text::lines(c.manifest.unwrap()@), 0)),
        ),
    decreases crates.len(),
{
    reveal(Seq::filter);
    if crates.len() > 0 {
        law_old_editions(crates.drop_last());
        if let Some(content) = crates.last().manifest {
            let lines = text::lines(content@);
            assert(has_current_edition(content@) <==> exists|i: int|
                0 <= i < lines.len() && (text::trim(#[trigger] lines[i])
                    == "edition = \"2024\""@ || text::occurs(
                    text::trim(lines[i]),
                    "edition.workspace = true"@,
                ))) by {
                if has_current_edition(content@) {
                    let i = choose|i: int|
                        0 <= i < lines.len() && settles_edition(#[trigger] lines[i]);
                    assert(text::trim(lines[i]) == "edition = \"2024\""@ || text::occurs(
                        text::trim(lines[i]),
                        "edition.workspace = true"@,
                    ));
                }
                assert forall|i: int|
                    0 <= i < lines.len() && (text::trim(#[trigger] lines[i])
                        == "edition = \"2024\""@ || text::occurs(
                        text::trim(lines[i]),
                        "edition.workspace = true"@,
                    )) implies has_current_edition(content@) by {
                    assert(settles_edition(lines[i]));
                }
            }
        }
    }
}

/// The edition told is the first line that starts with the word.
pub proof fn law_first_edition_line(lines: Seq<Seq<char>>, i: int, k: int)
    requires
        0 <= i <= k <= lines.len(),
        forall|j: int| i <= j < k ==> !"edition"@.is_prefix_of(text::trim(#[trigger] lines[j])),
    ensures
        k < lines.len() && "edition"@.is_prefix_of(text::trim(lines[k])) ==> edition_line(lines, i)
            == text::trim(lines[k]),
        k == lines.len() ==> edition_line(lines, i) == "missing"@,
    decreases k - i,
{
    if i < k {
        assert(!"edition"@.is_prefix_of(text::trim(lines[i])));
        law_first_edition_line(lines, i + 1, k);
    }
}

/// The editions of all repos are told, and so are their missing docs: a repo without a README, and
/// a crate whose library starts with neither a doc comment nor an attribute.
pub proof fn law_every_repo_is_audited(repos: Seq<RepoFacts>, x: (Seq<char>, Seq<char>))
    ensures
        all_editions(repos).contains(x) <==> exists|i: int|
            0 <= i < repos.len() && editions_of((#[trigger] repos[i]).crates@).contains(x),
        docs_gaps(repos).contains(x) <==> exists|i: int|
            0 <= i < repos.len() && (undocumented((#[trigger] repos[i]).crates@).contains(x) || (
            repos[i].readme is None && x == (repos[i].dir@, "no README.md"@))),
    decreases repos.len(),
{
    if repos.len() > 0 {
        let rest = repos.drop_last();
        let last = repos.last();
        law_every_repo_is_audited(rest, x);
        assert(repos[repos.len() - 1] == last);
        assert forall|i: int| 0 <= i < rest.len() implies rest[i] == repos[i] by {}
        crate::group::lemma_concat_contains(all_editions(rest), editions_of(last.crates@), x);
        let readme = if last.readme is Some {
            Seq::<(Seq<char>, Seq<char>)>::empty()
        } else {
            seq![(last.dir@, "no README.md"@)]
        };
        crate::group::lemma_concat_contains(docs_gaps(rest), readme, x);
        crate::group::lemma_concat_contains(
            docs_gaps(rest) + readme,
            undocumented(last.crates@),
            x,
        );
        if last.readme is None {
            assert(readme[0] == (last.dir@, "no README.md"@));
        }
    }
}

/// A crate with a library is told of where that starts with neither a doc comment nor an inner
/// attribute.
pub proof fn law_undocumented_crates(crates: Seq<CrateFacts>)
    ensures
        undocumented(crates) == crates.filter(
            |c: CrateFacts|
                c.lib_rs is Some && !"//!"@.is_prefix_of(c.lib_rs.unwrap()@)
                    && !"#!"@.is_prefix_of(c.lib_rs.unwrap()@),
        ).map_values(
            |c: CrateFacts| (c.name@, "src/lib.rs missing //! doc comment"@),
        ),
    decreases crates.len(),
{
    reveal(Seq::filter);
    if crates.len() > 0 {
        law_undocumented_crates(crates.drop_last());
    }
}

/// A repo is told of where it has none of the four license files.
pub proof fn law_unlicensed_repos(repos: Seq<RepoFacts>)
    ensures
        unlicensed(repos) == repos.filter(
            |r: RepoFacts|
                !text::lists(r.files@, "LICENSE"@) && !text::lists(r.files@, "LICENSE-MIT"@)
                    && !text::lists(r.files@, "LICENSE-APACHE"@)
                    && !text::lists(r.files@, "LICENSE-AGPL3"@),
        ).map_values(
            |r: RepoFacts| r.dir@,
        ),
    decreases repos.len(),
{
    reveal(Seq::filter);
    if repos.len() > 0 {
        law_unlicensed_repos(repos.drop_last());
    }
}

/// A repo with a README and a publishable crate is told of where the README lacks a badge.
pub proof fn law_badge_gaps(repos: Seq<RepoFacts>)
    ensures
        badge_gaps(repos) == repos.filter(
            |r: RepoFacts|
                r.readme is Some && (exists|i: int| 0 <= i < r.crates@.len()
                    && (#[trigger] r.crates@[i]).publishable)
                    && missing_badges(r.readme.unwrap()@).len() > 0,
        ).map_values(
            |r: RepoFacts| (r.dir@, text::join(missing_badges(r.readme.unwrap()@), ", "@)),
        ),
    decreases repos.len(),
{
    reveal(Seq::filter);
    if repos.len() > 0 {
        law_badge_gaps(repos.drop_last());
    }
}

/// Each repo with a GitHub URL is listed.
pub proof fn law_slugs(config: SuperworkConfig, dirs: Seq<Seq<char>>)
    ensures
        slugs(config, dirs) == dirs.filter(
            |d: Seq<char>| config.url_of(d) is Some && slug(config.url_of(d).unwrap()) is Some,
        ).map_values(
            |d: Seq<char>| slug(config.url_of(d).unwrap()).unwrap(),
        ),
    decreases dirs.len(),
{
    reveal(Seq::filter);
    if dirs.len() > 0 {
        law_slugs(config, dirs.drop_last());
    }
}

/// Each piece of a listing with a number and a title is an issue.
pub proof fn law_issues_are_read(segments: Seq<Seq<char>>)
    ensures
        issues_in(segments) == segments.filter(
            |s: Seq<char>| issue_in(s) is Some,
        ).map_values(
            |s: Seq<char>| issue_in(s).unwrap(),
        ),
    decreases segments.len(),
{
    reveal(Seq::filter);
    if segments.len() > 0 {
        law_issues_are_read(segments.drop_last());
    }
}

/// A generated file is clutter where it is there and git does not track it.
pub proof fn law_clutter_of_a_repo(repo: RepoFacts, n: nat)
    ensures
        clutter_of(repo, n) == Seq::new(n, |i: int| i).filter(
            |i: int|
                text::lists(repo.files@, clutter_names()[i])
                    && !text::lists(repo.in_git@, clutter_names()[i]),
        ).map_values(
            |i: int| clutter_names()[i],
        ),
    decreases n,
{
    reveal(Seq::filter);
    let all = Seq::new(n, |i: int| i);
    if n > 0 {
        law_clutter_of_a_repo(repo, (n - 1) as nat);
        assert(all.drop_last() =~= Seq::new((n - 1) as nat, |i: int| i));
        assert(all.last() == n - 1);
    } else {
        assert(all =~= Seq::<int>::empty());
    }
}

/// Each repo with clutter is told of, with all of it.
pub proof fn law_cluttered_repos(repos: Seq<RepoFacts>)
    ensures
        all_clutter(repos) == repos.filter(
            |r: RepoFacts| clutter_of(r, clutter_names().len()).len() > 0,
        ).map_values(
            |r: RepoFacts| (r.dir@, clutter_of(r, clutter_names().len())),
        ),
    decreases repos.len(),
{
    reveal(Seq::filter);
    if repos.len() > 0 {
        law_cluttered_repos(repos.drop_last());
    }
}

/// A README with no badge at all is told so and nothing else; of another, each of the three badges
/// that it lacks is told.
pub proof fn law_missing_badges(readme: Seq<char>)
    ensures
        ({
            let none = !text::occurs(readme, "img.shields.io"@) && !text::occurs(readme, "badge"@);
            let missing = missing_badges(readme);
            &&& none ==> missing == seq!["no badges at all"@]
            &&& !none ==> missing.len() == (if text::occurs(readme, "actions/workflow"@) {
                0int
            } else {
                1
            }) + (if text::occurs(readme, "crates.io"@) || text::occurs(readme, "crates/v/"@) {
                0int
            } else {
                1
            }) + (if text::occurs(readme, "docs.rs"@) || text::occurs(readme, "docsrs"@) {
                0int
            } else {
                1
            })
            &&& !none && !text::occurs(readme, "actions/workflow"@) ==> missing[0] == "CI badge"@
            &&& !none && !text::occurs(readme, "docs.rs"@) && !text::occurs(readme, "docsrs"@)
                ==> missing.last() == "docs.rs badge"@
            &&& !none && !text::occurs(readme, "crates.io"@) && !text::occurs(readme, "crates/v/"@)
                ==> missing.contains("crates.io badge"@)
        }),
{
    let missing = missing_badges(readme);
    if !text::occurs(readme, "crates.io"@) && !text::occurs(readme, "crates/v/"@) && (text::occurs(
        readme,
        "img.shields.io"@,
    ) || text::occurs(readme, "badge"@)) {
        assert(missing[if text::occurs(readme, "actions/workflow"@) {
            0int
        } else {
            1int
        }] == "crates.io badge"@);
    }
}

/// The total counts each finding of each kind once.
pub proof fn law_total_counts_all(r: AuditReport, ci_failures: int)
    requires
        ci_failures >= 0,
    ensures
        r.total(ci_failures) == 0 <==> r.edition_issues@.len() == 0 && r.license_issues@.len() == 0
            && r.badge_issues@.len() == 0 && r.docs_issues@.len() == 0 && r.clutter_files@.len()
            == 0 && ci_failures == 0,
        r.total(ci_failures) - r.total(0) == ci_failures,
        r.total(0) - r.license_issues@.len() - r.edition_issues@.len() - r.badge_issues@.len()
            - r.docs_issues@.len() == r.clutter_files@.len(),
{
}

/// The slug of a GitHub URL is all that follows the host, without a `.git` at its end; another URL
/// has none.
pub proof fn law_slug_of_a_url(s: Seq<char>, url: Seq<char>)
    ensures
        slug("https://github.com/"@ + s) == Some(text::without_ends(s, ".git"@)),
        slug(url) is Some <==> "https://github.com/"@.is_prefix_of(url),
{
    let lead = "https://github.com/"@;
    let whole = lead + s;
    assert(lead.is_prefix_of(whole));
    assert(whole.skip(lead.len() as int) =~= s);
    assert(whole.subrange(lead.len() as int, whole.len() as int) =~= s);
}

/// A repo without runs has no conclusion of its own.
pub proof fn law_conclusions(stdout: Seq<char>)
    ensures
        text::trim(stdout).len() == 0 ==> conclusion(stdout) == "no_runs"@,
        text::trim(stdout).len() > 0 ==> conclusion(stdout) == text::trim(stdout),
{
}

} // verus!
