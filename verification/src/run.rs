//! Running commands across repos, in the order of their dependencies.

use vstd::prelude::*;
use vstd::string::*;

use crate::config::SuperworkConfig;
use crate::discover;
use crate::discover::{CrateInfo, Ecosystem};
use crate::glob;
use crate::group;
use crate::path;
use crate::release;
use crate::text;

verus! {

broadcast use {text::lemma_texts_push, text::lemma_pairs_push};

// ── What is run ──

/// The command of a check where the configuration has none.
pub open spec fn default_line(check: Seq<char>) -> Option<Seq<char>> {
    if check == "test"@ {
        Some("cargo test"@)
    } else if check == "clippy"@ {
        Some("cargo clippy --all-targets -- -D warnings"@)
    } else if check == "fmt"@ {
        Some("cargo fmt -- --check"@)
    } else if check == "msrv"@ {
        Some("cargo hack check --rust-version"@)
    } else if check == "semver"@ {
        Some("cargo semver-checks"@)
    } else {
        None
    }
}

fn default_command(check: &str) -> (r: Option<&'static str>)
    ensures
        match r {
            Some(c) => default_line(check@) == Some(c@),
            None => default_line(check@) is None,
        },
{
    if text::same(check, "test") {
        Some("cargo test")
    } else if text::same(check, "clippy") {
        Some("cargo clippy --all-targets -- -D warnings")
    } else if text::same(check, "fmt") {
        Some("cargo fmt -- --check")
    } else if text::same(check, "msrv") {
        Some("cargo hack check --rust-version")
    } else if text::same(check, "semver") {
        Some("cargo semver-checks")
    } else {
        None
    }
}

/// The command of a named check: the configured one, else the default. A check that has neither
/// is unknown.
pub fn check_line(config: &SuperworkConfig, check_name: &str) -> (r: Result<String, String>)
    ensures
        if config.checks.commands.has(check_name@) {
            r is Ok && r->Ok_0@ == config.checks.commands@[check_name@].line()
        } else {
            match default_line(check_name@) {
                Some(d) => r is Ok && r->Ok_0@ == d,
                None => r is Err && r->Err_0@ == "unknown check: "@ + check_name@,
            }
        },
{
    if let Some(def) = config.checks.commands.get(check_name) {
        return Ok(def.command().to_string());
    }
    match default_command(check_name) {
        Some(d) => Ok(d.to_string()),
        None => Err(text::cat2("unknown check: ", check_name)),
    }
}

/// The command of a named check in a repo, given its command elsewhere.
pub fn repo_line(config: &SuperworkConfig, check_name: &str, repo_dir: &str, line: &str) -> (r:
    String)
    ensures
        r@ == (match config.command_of(check_name@, repo_dir@) {
            Some(c) => c,
            None => line@,
        }),
{
    match config.check_command(check_name, repo_dir) {
        Some(c) => c,
        None => line.to_string(),
    }
}

// ── Where it is run ──

/// Whether a crate lies in a repo and matches a pattern.
pub open spec fn is_wanted(info: CrateInfo, dir: Seq<char>, filter: Option<&str>) -> bool {
    info.repo_dir@ == dir && (filter is Some ==> glob::matches_glob(
        filter.unwrap()@,
        info.name@,
    ))
}

/// Whether a repo is selected: it has a crate that matches.
pub open spec fn is_selected(eco: Ecosystem, dir: Seq<char>, filter: Option<&str>) -> bool {
    exists|i: int|
        0 <= i < eco.crates.keys().len() && is_wanted(
            eco.crates@[#[trigger] eco.crates.keys()[i]],
            dir,
            filter,
        )
}

/// The directories of the repos with a crate that matches the pattern, in order.
fn matching_dirs(eco: &Ecosystem, filter: Option<&str>) -> (r: Vec<String>)
    ensures
        text::strictly_ordered(text::texts(r@)),
        forall|d: Seq<char>| #[trigger]
            text::texts(r@).contains(d) <==> is_selected(*eco, d, filter),
{
    let n: usize = eco.crates.len();
    let ghost ks = eco.crates.keys();
    let mut dirs: Vec<String> = Vec::new();
    let mut i: usize = 0;
    assert(text::texts(dirs@) =~= Seq::<Seq<char>>::empty());
    while i < n
        invariant
            i <= n,
            ks == eco.crates.keys(),
            n == ks.len(),
            text::strictly_ordered(text::texts(dirs@)),
            forall|d: Seq<char>| #[trigger]
                text::texts(dirs@).contains(d) <==> exists|j: int|
                    0 <= j < i && is_wanted(eco.crates@[#[trigger] ks[j]], d, filter),
        decreases n - i,
    {
        let ghost sofar = text::texts(dirs@);
        let info = eco.crates.value_at(i);
        let wanted = match filter {
            Some(p) => glob::full_glob_match(p, info.name.as_str()),
            None => true,
        };
        assert(eco.crates@[ks[i as int]] == *info);
        if wanted {
            group::insert_distinct(&mut dirs, info.repo_dir.clone());
        }
        proof {
            let now = text::texts(dirs@);
            assert forall|d: Seq<char>| #[trigger] now.contains(d) <==> exists|j: int|
                0 <= j < i + 1 && is_wanted(eco.crates@[#[trigger] ks[j]], d, filter) by {
                if now.contains(d) {
                    if sofar.contains(d) {
                        let j = choose|j: int|
                            0 <= j < i && is_wanted(eco.crates@[#[trigger] ks[j]], d, filter);
                        assert(is_wanted(eco.crates@[ks[j]], d, filter));
                    } else {
                        assert(is_wanted(eco.crates@[ks[i as int]], d, filter));
                    }
                }
                if exists|j: int|
                    0 <= j < i + 1 && is_wanted(eco.crates@[#[trigger] ks[j]], d, filter) {
                    let j = choose|j: int|
                        0 <= j < i + 1 && is_wanted(eco.crates@[#[trigger] ks[j]], d, filter);
                    if j < i {
                        assert(sofar.contains(d));
                    }
                }
            }
        }
        i += 1;
    }
    dirs
}

/// The crates of a repo among the first `n`, by name.
pub open spec fn crates_upto(eco: Ecosystem, dir: Seq<char>, n: nat) -> Seq<Seq<char>>
    decreases n,
{
    if n == 0 {
        Seq::empty()
    } else {
        let before = crates_upto(eco, dir, (n - 1) as nat);
        let info = eco.crates@[eco.crates.keys()[n - 1]];
        if info.repo_dir@ == dir {
            before.push(info.name@)
        } else {
            before
        }
    }
}

/// The crates of a repo, in the order of their names.
pub open spec fn crates_of_repo(eco: Ecosystem, dir: Seq<char>) -> Seq<Seq<char>> {
    crates_upto(eco, dir, eco.crates.keys().len())
}

fn crates_in(eco: &Ecosystem, dir: &str) -> (r: Vec<String>)
    ensures
        text::texts(r@) == crates_of_repo(*eco, dir@),
{
    let n: usize = eco.crates.len();
    let mut out: Vec<String> = Vec::new();
    let mut i: usize = 0;
    assert(text::texts(out@) =~= Seq::<Seq<char>>::empty());
    while i < n
        invariant
            i <= n,
            n == eco.crates.keys().len(),
            text::texts(out@) == crates_upto(*eco, dir@, i as nat),
        decreases n - i,
    {
        let info = eco.crates.value_at(i);
        if text::same(info.repo_dir.as_str(), dir) {
            out.push(info.name.clone());
        }
        i += 1;
    }
    out
}

/// A repo to process, with its crates.
pub struct SelectedRepo {
    pub repo_dir: String,
    pub crates: Vec<String>,
}

pub open spec fn selected_dirs(v: Seq<SelectedRepo>) -> Seq<Seq<char>> {
    v.map_values(|r: SelectedRepo| r.repo_dir@)
}

/// Select the repos with a crate that matches the pattern and, where only changed repos are asked
/// for, that are among the changed ones; in order, each with all its crates.
pub fn select_repos(
    eco: &Ecosystem,
    filter: Option<&str>,
    changed_only: bool,
    changed: &Vec<String>,
) -> (r: Vec<SelectedRepo>)
    ensures
        text::strictly_ordered(selected_dirs(r@)),
        forall|d: Seq<char>| #[trigger]
            selected_dirs(r@).contains(d) <==> is_selected(*eco, d, filter) && (changed_only
                ==> text::lists(changed@, d)),
        forall|i: int|
            0 <= i < r.len() ==> text::texts((#[trigger] r@[i]).crates@) == crates_of_repo(
                *eco,
                r@[i].repo_dir@,
            ),
{
    let dirs = matching_dirs(eco, filter);
    let ghost all = text::texts(dirs@);
    let mut out: Vec<SelectedRepo> = Vec::new();
    let mut j: usize = 0;
    assert(selected_dirs(out@) =~= Seq::<Seq<char>>::empty());
    while j < dirs.len()
        invariant
            j <= dirs.len(),
            all == text::texts(dirs@),
            text::strictly_ordered(all),
            text::strictly_ordered(selected_dirs(out@)),
            forall|d: Seq<char>| #[trigger]
                selected_dirs(out@).contains(d) <==> all.take(j as int).contains(d) && (changed_only
                    ==> text::lists(changed@, d)),
            forall|i: int|
                0 <= i < out.len() ==> text::texts((#[trigger] out@[i]).crates@) == crates_of_repo(
                    *eco,
                    out@[i].repo_dir@,
                ),
        decreases dirs.len() - j,
    {
        let ghost dir = dirs@[j as int]@;
        let ghost sofar = selected_dirs(out@);
        proof {
            assert(all[j as int] == dir);
            assert(all.take(j + 1) =~= all.take(j as int).push(dir));
            group::lemma_push_contains(all.take(j as int), dir);
            group::lemma_push_contains(sofar, dir);
        }
        if !changed_only || text::holds(changed, dirs[j].as_str()) {
            let crates = crates_in(eco, dirs[j].as_str());
            out.push(SelectedRepo { repo_dir: dirs[j].clone(), crates });
            proof {
                let now = selected_dirs(out@);
                assert(now =~= sofar.push(dir));
                assert forall|a: int, b: int| 0 <= a < b < now.len() implies text::precedes(
                    #[trigger] now[a],
                    #[trigger] now[b],
                ) by {
                    if b == sofar.len() {
                        assert(sofar.contains(sofar[a]));
                        assert(all.take(j as int).contains(sofar[a]));
                        let k = all.take(j as int).index_of(sofar[a]);
                        assert(all[k] == sofar[a]);
                    }
                }
            }
        }
        j += 1;
    }
    assert(all.take(j as int) =~= all);
    out
}

/// Whether a count of commits says that a repo has changed.
pub open spec fn says_changed(stdout: Option<&str>) -> bool {
    match stdout {
        Some(s) => match text::parsed_number(text::trim(s@), usize::MAX as nat) {
            Some(n) => n > 0,
            None => false,
        },
        None => false,
    }
}

/// Whether a repo has commits since its last tag, given whether it has a tag and what the count of
/// commits since then says. Without tags everything counts as changed.
pub fn has_changes_since_last_tag(has_tag: bool, count: Option<&str>) -> (r: bool)
    ensures
        r == (!has_tag || says_changed(count)),
{
    if !has_tag {
        return true;
    }
    match count {
        Some(s) => {
            let t = text::trimmed(s);
            match text::parse_size(t.as_str()) {
                Some(n) => n > 0,
                None => false,
            }
        },
        None => false,
    }
}

/// The directory of a crate's repo: that of its workspace's manifest, else that of its own.
pub open spec fn home_of(info: CrateInfo) -> Option<Seq<char>> {
    match info.workspace_root {
        Some(w) => path::parent(w@),
        None => path::parent(info.manifest_path@),
    }
}

fn find_home(info: &CrateInfo) -> (r: Option<String>)
    ensures
        text::opt(r) == home_of(*info),
{
    match &info.workspace_root {
        Some(w) => path::parent_of(w.as_str()),
        None => path::parent_of(info.manifest_path.as_str()),
    }
}

/// The repos met so far, each with its directory, and all that were met before.
pub struct Met {
    pub here: Seq<(Seq<char>, Seq<char>)>,
    pub seen: Seq<Seq<char>>,
    /// Whether each of the repos has a directory.
    pub homed: bool,
}

/// The repos that the crates of a level lead to and that were not met before.
pub open spec fn met_in(
    level: Seq<String>,
    eco: Ecosystem,
    repos: Seq<Seq<char>>,
    seen: Seq<Seq<char>>,
) -> Met
    decreases level.len(),
{
    if level.len() == 0 {
        Met { here: Seq::empty(), seen, homed: true }
    } else {
        let before = met_in(level.drop_last(), eco, repos, seen);
        let name = level.last()@;
        if eco.crates.has(name) && repos.contains(eco.crates@[name].repo_dir@)
            && !before.seen.contains(eco.crates@[name].repo_dir@) {
            let info = eco.crates@[name];
            Met {
                here: before.here.push((info.repo_dir@, home_of(info).unwrap())),
                seen: before.seen.push(info.repo_dir@),
                homed: before.homed && home_of(info) is Some,
            }
        } else {
            before
        }
    }
}

/// All repos met in the first `n` levels.
pub open spec fn seen_in(
    levels: Seq<Vec<String>>,
    eco: Ecosystem,
    repos: Seq<Seq<char>>,
    n: nat,
) -> Seq<Seq<char>>
    decreases n,
{
    if n == 0 {
        Seq::empty()
    } else {
        met_in(levels[n - 1]@, eco, repos, seen_in(levels, eco, repos, (n - 1) as nat)).seen
    }
}

/// The repos first met in the level at place `i`.
pub open spec fn met_at(
    levels: Seq<Vec<String>>,
    eco: Ecosystem,
    repos: Seq<Seq<char>>,
    i: int,
) -> Seq<(Seq<char>, Seq<char>)> {
    met_in(levels[i]@, eco, repos, seen_in(levels, eco, repos, i as nat)).here
}

/// The first crate of a repo, in the order of names, from place `i` on.
pub open spec fn first_crate(eco: Ecosystem, dir: Seq<char>, i: int) -> Option<int>
    decreases eco.crates.keys().len() - i,
{
    if i >= eco.crates.keys().len() {
        None
    } else if eco.crates@[eco.crates.keys()[i]].repo_dir@ == dir {
        Some(i)
    } else {
        first_crate(eco, dir, i + 1)
    }
}

/// The repos of a list that were not met in any level, each with the directory of its first
/// crate.
pub open spec fn remaining(
    eco: Ecosystem,
    repos: Seq<Seq<char>>,
    seen: Seq<Seq<char>>,
) -> Seq<(Seq<char>, Seq<char>)>
    decreases repos.len(),
{
    if repos.len() == 0 {
        Seq::empty()
    } else {
        let before = remaining(eco, repos.drop_last(), seen);
        let dir = repos.last();
        if seen.contains(dir) {
            before
        } else {
            match first_crate(eco, dir, 0) {
                Some(i) => before.push(
                    (dir, home_of(eco.crates@[eco.crates.keys()[i]]).unwrap()),
                ),
                None => before,
            }
        }
    }
}

/// Whether the first crate of a repo, where it has one, gives the repo a directory.
pub open spec fn first_homed(eco: Ecosystem, dir: Seq<char>) -> bool {
    match first_crate(eco, dir, 0) {
        Some(i) => home_of(eco.crates@[eco.crates.keys()[i]]) is Some,
        None => true,
    }
}

/// Whether the repos of a list that were not met in any level have a directory.
pub open spec fn rest_homed(eco: Ecosystem, repos: Seq<Seq<char>>, seen: Seq<Seq<char>>) -> bool {
    forall|k: int|
        0 <= k < repos.len() && !seen.contains(#[trigger] repos[k]) ==> first_homed(eco, repos[k])
}

/// Whether the repos first met in the level at place `i` have a directory.
pub open spec fn level_homed(
    levels: Seq<Vec<String>>,
    eco: Ecosystem,
    repos: Seq<Seq<char>>,
    i: int,
) -> bool {
    met_in(levels[i]@, eco, repos, seen_in(levels, eco, repos, i as nat)).homed
}

/// Whether each repo of a list gets a directory from the crate by which it is met.
pub open spec fn are_homed(
    levels: Seq<Vec<String>>,
    eco: Ecosystem,
    repos: Seq<Seq<char>>,
) -> bool {
    &&& forall|i: int| 0 <= i < levels.len() ==> #[trigger] level_homed(levels, eco, repos, i)
    &&& rest_homed(eco, repos, seen_in(levels, eco, repos, levels.len()))
}

/// The first texts of a list of pairs.
pub open spec fn firsts(v: Seq<(Seq<char>, Seq<char>)>) -> Seq<Seq<char>> {
    v.map_values(|p: (Seq<char>, Seq<char>)| p.0)
}

/// Whether a list is another, sorted by the first text of each pair.
pub open spec fn is_arranged(
    list: Seq<(String, String)>,
    found: Seq<(Seq<char>, Seq<char>)>,
) -> bool {
    exists|order: Seq<usize>| #[trigger]
        group::is_sorting(firsts(found), order) && text::pairs(list) == order.map_values(
            |o: usize| found[o as int],
        )
}

/// Whether a list of groups is made of the groups of another that are not empty, each sorted.
pub open spec fn are_arranged(
    list: Seq<Vec<(String, String)>>,
    found: Seq<Seq<(Seq<char>, Seq<char>)>>,
) -> bool
    decreases found.len(),
{
    if found.len() == 0 {
        list.len() == 0
    } else if found.last().len() == 0 {
        are_arranged(list, found.drop_last())
    } else {
        list.len() > 0 && is_arranged(list.last()@, found.last()) && are_arranged(
            list.drop_last(),
            found.drop_last(),
        )
    }
}

/// The repos level by level, and behind them those that no level leads to.
pub open spec fn by_level(
    levels: Seq<Vec<String>>,
    eco: Ecosystem,
    repos: Seq<Seq<char>>,
) -> Seq<Seq<(Seq<char>, Seq<char>)>> {
    Seq::new(levels.len(), |i: int| met_at(levels, eco, repos, i)).push(
        remaining(eco, repos, seen_in(levels, eco, repos, levels.len())),
    )
}

fn arrange(found: &Vec<(String, String)>) -> (r: Vec<(String, String)>)
    ensures
        is_arranged(r@, text::pairs(found@)),
{
    let ghost fs = text::pairs(found@);
    let mut names: Vec<String> = Vec::new();
    let mut i: usize = 0;
    assert(text::texts(names@) =~= firsts(fs).take(0));
    while i < found.len()
        invariant
            i <= found.len(),
            fs == text::pairs(found@),
            text::texts(names@) == firsts(fs).take(i as int),
        decreases found.len() - i,
    {
        names.push(found[i].0.clone());
        assert(firsts(fs).take(i + 1) =~= firsts(fs).take(i as int).push(found@[i as int].0@));
        i += 1;
    }
    assert(firsts(fs).take(i as int) =~= firsts(fs));
    let order = group::sorted_places(&names);
    let ghost whole = order@.map_values(|o: usize| fs[o as int]);
    let mut out: Vec<(String, String)> = Vec::new();
    let mut k: usize = 0;
    assert(text::pairs(out@) =~= whole.take(0));
    while k < order.len()
        invariant
            k <= order.len(),
            fs == text::pairs(found@),
            fs.len() == found.len(),
            firsts(fs).len() == fs.len(),
            group::is_sorting(firsts(fs), order@),
            whole == order@.map_values(|o: usize| fs[o as int]),
            text::pairs(out@) == whole.take(k as int),
        decreases order.len() - k,
    {
        let o: usize = order[k];
        assert(order@[k as int] < fs.len());
        out.push((found[o].0.clone(), found[o].1.clone()));
        assert(whole.take(k + 1) =~= whole.take(k as int).push(fs[o as int]));
        k += 1;
    }
    assert(whole.take(k as int) =~= whole);
    out
}

proof fn lemma_homed_so_far(
    level: Seq<String>,
    eco: Ecosystem,
    repos: Seq<Seq<char>>,
    seen: Seq<Seq<char>>,
    i: int,
)
    requires
        0 <= i <= level.len(),
    ensures
        met_in(level, eco, repos, seen).homed ==> met_in(level.take(i), eco, repos, seen).homed,
    decreases level.len(),
{
    if i < level.len() {
        lemma_homed_so_far(level.drop_last(), eco, repos, seen, i);
        assert(level.drop_last().take(i) =~= level.take(i));
    } else {
        assert(level.take(i) =~= level);
    }
}

/// The repos first met in a level, where each has a directory.
fn meet_level(
    level: &Vec<String>,
    eco: &Ecosystem,
    repos: &Vec<String>,
    seen: &mut Vec<String>,
) -> (r: Option<Vec<(String, String)>>)
    ensures
        r is Some == met_in(
            level@,
            *eco,
            text::texts(repos@),
            text::texts(old(seen)@),
        ).homed,
        r is Some ==> text::pairs(r.unwrap()@) == met_in(
            level@,
            *eco,
            text::texts(repos@),
            text::texts(old(seen)@),
        ).here,
        r is Some ==> text::texts(final(seen)@) == met_in(
            level@,
            *eco,
            text::texts(repos@),
            text::texts(old(seen)@),
        ).seen,
{
    let ghost start = text::texts(seen@);
    let ghost rs = text::texts(repos@);
    let mut here: Vec<(String, String)> = Vec::new();
    let mut i: usize = 0;
    assert(level@.take(0) =~= Seq::<String>::empty());
    assert(text::pairs(here@) =~= Seq::<(Seq<char>, Seq<char>)>::empty());
    while i < level.len()
        invariant
            i <= level.len(),
            rs == text::texts(repos@),
            met_in(level@.take(i as int), *eco, rs, start).homed,
            text::pairs(here@) == met_in(level@.take(i as int), *eco, rs, start).here,
            text::texts(seen@) == met_in(level@.take(i as int), *eco, rs, start).seen,
        decreases level.len() - i,
    {
        assert(level@.take(i + 1).drop_last() =~= level@.take(i as int));
        if let Some(info) = eco.crates.get(level[i].as_str()) {
            proof {
                assert(eco.crates.has(level@[i as int]@));
                text::lemma_lists_texts(repos@, info.repo_dir@);
                text::lemma_lists_texts(seen@, info.repo_dir@);
            }
            if text::holds(repos, info.repo_dir.as_str()) && !text::holds(
                seen,
                info.repo_dir.as_str(),
            ) {
                match find_home(info) {
                    Some(home) => {
                        here.push((info.repo_dir.clone(), home));
                        seen.push(info.repo_dir.clone());
                    },
                    None => {
                        proof {
                            lemma_homed_so_far(level@, *eco, rs, start, i + 1);
                        }
                        return None;
                    },
                }
            }
        }
        i += 1;
    }
    assert(level@.take(i as int) =~= level@);
    Some(here)
}

fn find_first<'a>(eco: &'a Ecosystem, dir: &str) -> (r: Option<&'a CrateInfo>)
    ensures
        match first_crate(*eco, dir@, 0) {
            Some(i) => r is Some && *r.unwrap() == eco.crates@[eco.crates.keys()[i]],
            None => r is None,
        },
{
    let n: usize = eco.crates.len();
    let mut i: usize = 0;
    while i < n
        invariant
            i <= n,
            n == eco.crates.keys().len(),
            first_crate(*eco, dir@, i as int) == first_crate(*eco, dir@, 0),
        decreases n - i,
    {
        let info = eco.crates.value_at(i);
        if text::same(info.repo_dir.as_str(), dir) {
            return Some(info);
        }
        i += 1;
    }
    None
}

/// The repos that no level leads to, where each has a directory.
fn find_remaining(eco: &Ecosystem, repos: &Vec<String>, seen: &Vec<String>) -> (r: Option<
    Vec<(String, String)>,
>)
    ensures
        r is Some == rest_homed(*eco, text::texts(repos@), text::texts(seen@)),
        r is Some ==> text::pairs(r.unwrap()@) == remaining(
            *eco,
            text::texts(repos@),
            text::texts(seen@),
        ),
{
    let ghost rs = text::texts(repos@);
    let ghost ss = text::texts(seen@);
    let mut out: Vec<(String, String)> = Vec::new();
    let mut i: usize = 0;
    assert(rs.take(0) =~= Seq::<Seq<char>>::empty());
    assert(text::pairs(out@) =~= Seq::<(Seq<char>, Seq<char>)>::empty());
    while i < repos.len()
        invariant
            i <= repos.len(),
            rs == text::texts(repos@),
            ss == text::texts(seen@),
            forall|k: int|
                0 <= k < i && !ss.contains(#[trigger] rs[k]) ==> first_homed(*eco, rs[k]),
            text::pairs(out@) == remaining(*eco, rs.take(i as int), ss),
        decreases repos.len() - i,
    {
        assert(rs.take(i + 1).drop_last() =~= rs.take(i as int));
        assert(rs.take(i + 1).last() == repos@[i as int]@);
        proof {
            text::lemma_lists_texts(seen@, repos@[i as int]@);
        }
        if !text::holds(seen, repos[i].as_str()) {
            if let Some(first) = find_first(eco, repos[i].as_str()) {
                match find_home(first) {
                    Some(home) => out.push((repos[i].clone(), home)),
                    None => {
                        assert(!first_homed(*eco, rs[i as int]));
                        return None;
                    },
                }
            }
        }
        i += 1;
    }
    assert(rs.take(i as int) =~= rs);
    Some(out)
}

/// The repos by dependency level, where each has a directory.
fn arrange_repos(levels: &Vec<Vec<String>>, eco: &Ecosystem, repos: &Vec<String>) -> (r: Option<
    Vec<Vec<(String, String)>>,
>)
    ensures
        r is Some == are_homed(levels@, *eco, text::texts(repos@)),
        r is Some ==> are_arranged(
            r.unwrap()@,
            by_level(levels@, *eco, text::texts(repos@)),
        ),
{
    let ghost rs = text::texts(repos@);
    let ghost found = Seq::new(levels@.len(), |i: int| met_at(levels@, *eco, rs, i));
    let mut out: Vec<Vec<(String, String)>> = Vec::new();
    let mut seen: Vec<String> = Vec::new();
    let mut i: usize = 0;
    assert(text::texts(seen@) =~= Seq::<Seq<char>>::empty());
    while i < levels.len()
        invariant
            i <= levels.len(),
            rs == text::texts(repos@),
            found == Seq::new(levels@.len(), |i: int| met_at(levels@, *eco, rs, i)),
            text::texts(seen@) == seen_in(levels@, *eco, rs, i as nat),
            forall|k: int| 0 <= k < i ==> #[trigger] level_homed(levels@, *eco, rs, k),
            are_arranged(out@, found.take(i as int)),
        decreases levels.len() - i,
    {
        let here = match meet_level(&levels[i], eco, repos, &mut seen) {
            Some(here) => here,
            None => {
                assert(!level_homed(levels@, *eco, rs, i as int));
                return None;
            },
        };
        assert(level_homed(levels@, *eco, rs, i as int));
        assert(found.take(i + 1).drop_last() =~= found.take(i as int));
        assert(found.take(i + 1).last() == text::pairs(here@));
        if here.len() > 0 {
            let ghost sofar = out@;
            out.push(arrange(&here));
            assert(out@.drop_last() =~= sofar);
        }
        i += 1;
    }
    assert(found.take(i as int) =~= found);
    let rest = match find_remaining(eco, repos, &seen) {
        Some(rest) => rest,
        None => return None,
    };
    let ghost whole = found.push(text::pairs(rest@));
    assert(whole.drop_last() =~= found);
    if rest.len() > 0 {
        let ghost sofar = out@;
        out.push(arrange(&rest));
        assert(out@.drop_last() =~= sofar);
    }
    assert(are_arranged(out@, whole));
    Some(out)
}

/// Whether each repo of a list gets a directory from the crate by which it is met.
pub fn all_homed(levels: &Vec<Vec<String>>, eco: &Ecosystem, repos: &Vec<String>) -> (r: bool)
    ensures
        r == are_homed(levels@, *eco, text::texts(repos@)),
{
    arrange_repos(levels, eco, repos).is_some()
}

/// Order repos by dependency level (leaves first), each with its directory.
pub fn order_repos_by_level(levels: &Vec<Vec<String>>, eco: &Ecosystem, repos: &Vec<String>) -> (r:
    Vec<Vec<(String, String)>>)
    requires
        are_homed(levels@, *eco, text::texts(repos@)),
    ensures
        are_arranged(r@, by_level(levels@, *eco, text::texts(repos@))),
{
    match arrange_repos(levels, eco, repos) {
        Some(ordered) => ordered,
        None => Vec::new(),
    }
}

/// All repos of a list of groups, one after the other.
pub open spec fn all_met(found: Seq<Seq<(Seq<char>, Seq<char>)>>) -> Seq<Seq<char>>
    decreases found.len(),
{
    if found.len() == 0 {
        Seq::empty()
    } else {
        all_met(found.drop_last()) + firsts(found.last())
    }
}

proof fn lemma_met(
    level: Seq<String>,
    eco: Ecosystem,
    repos: Seq<Seq<char>>,
    seen: Seq<Seq<char>>,
)
    requires
        seen.no_duplicates(),
    ensures
        met_in(level, eco, repos, seen).seen == seen + firsts(
            met_in(level, eco, repos, seen).here,
        ),
        met_in(level, eco, repos, seen).seen.no_duplicates(),
        forall|d: Seq<char>| #[trigger]
            met_in(level, eco, repos, seen).seen.contains(d) ==> seen.contains(d)
                || repos.contains(d),
    decreases level.len(),
{
    let now = met_in(level, eco, repos, seen);
    if level.len() == 0 {
        assert(seen + firsts(now.here) =~= seen);
    } else {
        let before = met_in(level.drop_last(), eco, repos, seen);
        lemma_met(level.drop_last(), eco, repos, seen);
        if now.seen.len() != before.seen.len() {
            let dir = now.seen.last();
            group::lemma_push_contains(before.seen, dir);
            assert(seen + firsts(now.here) =~= (seen + firsts(before.here)).push(dir));
        }
    }
}

proof fn lemma_seen(levels: Seq<Vec<String>>, eco: Ecosystem, repos: Seq<Seq<char>>, n: nat)
    requires
        n <= levels.len(),
    ensures
        seen_in(levels, eco, repos, n) == all_met(
            Seq::new(levels.len(), |i: int| met_at(levels, eco, repos, i)).take(n as int),
        ),
        seen_in(levels, eco, repos, n).no_duplicates(),
        forall|d: Seq<char>| #[trigger]
            seen_in(levels, eco, repos, n).contains(d) ==> repos.contains(d),
    decreases n,
{
    let found = Seq::new(levels.len(), |i: int| met_at(levels, eco, repos, i));
    if n > 0 {
        let m = (n - 1) as nat;
        lemma_seen(levels, eco, repos, m);
        lemma_met(levels[m as int]@, eco, repos, seen_in(levels, eco, repos, m));
        assert(found.take(n as int).drop_last() =~= found.take(m as int));
        assert(found.take(n as int).last() == met_at(levels, eco, repos, m as int));
    }
}

proof fn lemma_remaining(eco: Ecosystem, repos: Seq<Seq<char>>, seen: Seq<Seq<char>>)
    requires
        repos.no_duplicates(),
    ensures
        firsts(remaining(eco, repos, seen)).no_duplicates(),
        forall|d: Seq<char>| #[trigger]
            firsts(remaining(eco, repos, seen)).contains(d) <==> repos.contains(d)
                && !seen.contains(d) && first_crate(eco, d, 0) is Some,
    decreases repos.len(),
{
    let now = firsts(remaining(eco, repos, seen));
    if repos.len() > 0 {
        let rest = repos.drop_last();
        let dir = repos.last();
        assert(rest.no_duplicates());
        lemma_remaining(eco, rest, seen);
        let before = firsts(remaining(eco, rest, seen));
        assert(rest.push(dir) =~= repos);
        group::lemma_push_contains(rest, dir);
        group::lemma_push_contains(before, dir);
        assert(!rest.contains(dir)) by {
            if rest.contains(dir) {
                let j = rest.index_of(dir);
                assert(repos[j] == repos[repos.len() - 1]);
            }
        }
        if !seen.contains(dir) && first_crate(eco, dir, 0) is Some {
            assert(now =~= before.push(dir));
        } else {
            assert(now =~= before);
        }
    }
}

/// Each repo of the list that has a crate comes exactly once.
pub proof fn law_each_repo_runs_once(
    levels: Seq<Vec<String>>,
    eco: Ecosystem,
    repos: Seq<Seq<char>>,
)
    requires
        repos.no_duplicates(),
        forall|d: Seq<char>| #[trigger] repos.contains(d) ==> first_crate(eco, d, 0) is Some,
    ensures
        all_met(by_level(levels, eco, repos)).no_duplicates(),
        forall|d: Seq<char>| #[trigger]
            all_met(by_level(levels, eco, repos)).contains(d) <==> repos.contains(d),
{
    let found = Seq::new(levels.len(), |i: int| met_at(levels, eco, repos, i));
    let seen = seen_in(levels, eco, repos, levels.len());
    let rest = remaining(eco, repos, seen);
    let whole = by_level(levels, eco, repos);
    lemma_seen(levels, eco, repos, levels.len());
    lemma_remaining(eco, repos, seen);
    assert(found.take(levels.len() as int) =~= found);
    assert(whole.drop_last() =~= found);
    let all = all_met(whole);
    assert(all == seen + firsts(rest));
    assert forall|i: int, j: int| 0 <= i < all.len() && 0 <= j < all.len() && i != j implies all[i]
        != all[j] by {
        let n = seen.len();
        if i < n && j >= n {
            assert(firsts(rest).contains(firsts(rest)[j - n]));
            assert(seen.contains(seen[i]));
        } else if j < n && i >= n {
            assert(firsts(rest).contains(firsts(rest)[i - n]));
            assert(seen.contains(seen[j]));
        } else if i >= n {
            assert(firsts(rest)[i - n] != firsts(rest)[j - n]);
        }
    }
    assert forall|d: Seq<char>| #[trigger] all.contains(d) <==> repos.contains(d) by {
        if all.contains(d) {
            let i = all.index_of(d);
            if i < seen.len() {
                assert(seen.contains(seen[i]));
            } else {
                assert(firsts(rest).contains(firsts(rest)[i - seen.len()]));
            }
        }
        if repos.contains(d) {
            if seen.contains(d) {
                assert(all[seen.index_of(d)] == d);
            } else {
                assert(firsts(rest).contains(d));
                assert(all[seen.len() + firsts(rest).index_of(d)] == d);
            }
        }
    }
}

// ── What came of it ──

/// The last lines of a text.
pub open spec fn last_lines(s: Seq<char>, n: nat) -> Seq<Seq<char>> {
    let all = text::lines(s);
    if all.len() <= n {
        all
    } else {
        all.skip(all.len() - n)
    }
}

/// The last lines of a text, one under the other.
pub fn tail_of(s: &str, n: usize) -> (r: String)
    ensures
        r@ == text::join(last_lines(s@, n as nat), "\n"@),
{
    let ls = text::lines_of(s);
    let ghost all = text::lines(s@);
    assert(all.len() == ls.len());
    let from: usize = if ls.len() <= n {
        0
    } else {
        ls.len() - n
    };
    let mut kept: Vec<String> = Vec::new();
    let mut i: usize = from;
    assert(text::texts(kept@) =~= all.subrange(from as int, from as int));
    while i < ls.len()
        invariant
            from <= i <= ls.len(),
            all == text::texts(ls@),
            text::texts(kept@) == all.subrange(from as int, i as int),
        decreases ls.len() - i,
    {
        kept.push(ls[i].clone());
        assert(all.subrange(from as int, i + 1) =~= all.subrange(from as int, i as int).push(
            ls@[i as int]@,
        ));
        i += 1;
    }
    assert(all.subrange(from as int, i as int) =~= last_lines(s@, n as nat));
    text::join_with(&kept, "\n")
}

/// How a command ended in a repo.
pub enum RunOutcome {
    Passed,
    /// It ended with this code.
    Failed(i32),
    /// It could not be run.
    NotRun(String),
}

/// A number with its sign, written down.
pub open spec fn signed_decimal(n: int) -> Seq<char> {
    if n < 0 {
        "-"@ + text::decimal((-n) as nat)
    } else {
        text::decimal(n as nat)
    }
}

fn write_code(code: i32) -> (r: String)
    ensures
        r@ == signed_decimal(code as int),
{
    if code < 0 {
        let n: u64 = (-(code as i64)) as u64;
        let digits = text::decimal_of(n);
        text::cat2("-", digits.as_str())
    } else {
        text::decimal_of(code as u64)
    }
}

/// The message with which a command's failure stops the run.
pub open spec fn stop_message(
    outcome: RunOutcome,
    dir: Seq<char>,
    successes: nat,
    is_check: bool,
) -> Seq<char> {
    match outcome {
        RunOutcome::Passed => Seq::empty(),
        RunOutcome::Failed(code) => if is_check {
            text::decimal(successes) + " passed, 1 failed in "@ + dir
        } else {
            "failed in "@ + dir + " (exit "@ + signed_decimal(code as int) + "). "@
                + text::decimal(successes) + " passed, 1 failed."@
        },
        RunOutcome::NotRun(e) => "error in "@ + dir + ": "@ + e@,
    }
}

/// The repos in which a command passed, by number, and those in which it failed.
pub struct RunTally {
    pub successes: u64,
    pub failures: Vec<String>,
}

impl RunTally {
    pub fn new() -> (r: RunTally)
        ensures
            r.successes == 0,
            r.failures@.len() == 0,
    {
        RunTally { successes: 0, failures: Vec::new() }
    }

    /// Count how a command ended in a repo; where it failed and failures stop the run, that is the
    /// error.
    pub fn record(
        &mut self,
        outcome: &RunOutcome,
        repo_dir: &str,
        fail_fast: bool,
        is_check: bool,
    ) -> (r: Result<(), String>)
        requires
            old(self).successes < u64::MAX,
        ensures
            outcome is Passed ==> final(self).successes == old(self).successes + 1
                && final(self).failures == old(self).failures,
            !(outcome is Passed) ==> final(self).successes == old(self).successes && text::texts(
                final(self).failures@,
            ) == text::texts(old(self).failures@).push(repo_dir@),
            r is Err <==> !(outcome is Passed) && fail_fast,
            r is Err ==> r->Err_0@ == stop_message(
                *outcome,
                repo_dir@,
                old(self).successes as nat,
                is_check,
            ),
    {
        match outcome {
            RunOutcome::Passed => {
                self.successes = self.successes + 1;
                Ok(())
            },
            RunOutcome::Failed(code) => {
                self.failures.push(repo_dir.to_string());
                if !fail_fast {
                    return Ok(());
                }
                let passed = text::decimal_of(self.successes);
                if is_check {
                    return Err(text::cat3(passed.as_str(), " passed, 1 failed in ", repo_dir));
                }
                let code = write_code(*code);
                let mut message = text::cat4("failed in ", repo_dir, " (exit ", code.as_str());
                message.append("). ");
                message.append(passed.as_str());
                message.append(" passed, 1 failed.");
                Err(message)
            },
            RunOutcome::NotRun(e) => {
                self.failures.push(repo_dir.to_string());
                if fail_fast {
                    Err(text::cat4("error in ", repo_dir, ": ", e.as_str()))
                } else {
                    Ok(())
                }
            },
        }
    }

    /// Whether the command passed everywhere; the message counts the failures where it did not.
    pub fn verdict(&self) -> (r: Result<(), String>)
        ensures
            self.failures@.len() == 0 ==> r is Ok,
            self.failures@.len() > 0 ==> r is Err && r->Err_0@ == text::decimal(
                self.failures@.len(),
            ) + " repos failed"@,
    {
        if self.failures.len() > 0 {
            let n = text::decimal_of(self.failures.len() as u64);
            Err(text::cat2(n.as_str(), " repos failed"))
        } else {
            Ok(())
        }
    }
}

/// What a semver check of a crate says.
#[derive(Debug, Clone, Copy, PartialEq, Eq, Structural)]
pub enum SemverOutcome {
    Compatible,
    Breaking,
    /// The crate may not be published yet.
    Skipped,
}

/// What a semver check of a crate says, by how it ended.
pub fn semver_outcome(outcome: &RunOutcome) -> (r: SemverOutcome)
    ensures
        r == (match *outcome {
            RunOutcome::Passed => SemverOutcome::Compatible,
            RunOutcome::Failed(code) => if code == 1 {
                SemverOutcome::Breaking
            } else {
                SemverOutcome::Skipped
            },
            RunOutcome::NotRun(_) => SemverOutcome::Skipped,
        }),
{
    match outcome {
        RunOutcome::Passed => SemverOutcome::Compatible,
        RunOutcome::Failed(code) => if *code == 1 {
            SemverOutcome::Breaking
        } else {
            SemverOutcome::Skipped
        },
        RunOutcome::NotRun(_) => SemverOutcome::Skipped,
    }
}

/// Whether no crate breaks; the message names those that do.
pub fn semver_result(breaking: &Vec<String>) -> (r: Result<(), String>)
    ensures
        breaking@.len() == 0 ==> r is Ok,
        breaking@.len() > 0 ==> r is Err && r->Err_0@ == "breaking changes in: "@ + text::join(
            text::texts(breaking@),
            ", "@,
        ),
{
    if breaking.len() > 0 {
        let names = text::join_with(breaking, ", ");
        Err(text::cat2("breaking changes in: ", names.as_str()))
    } else {
        Ok(())
    }
}

// ── Reverse dependencies ──

/// Whether a crate depends on another.
pub open spec fn depends_on(eco: Ecosystem, from: Seq<char>, to: Seq<char>) -> bool {
    exists|i: int|
        0 <= i < eco.deps@.len() && (#[trigger] eco.deps@[i]).to_crate@ == to
            && eco.deps@[i].from_crate@ == from
}

/// The crates that depend on a crate, in order.
pub fn reverse_deps(eco: &Ecosystem, crate_name: &str) -> (r: Vec<String>)
    ensures
        text::strictly_ordered(text::texts(r@)),
        forall|x: Seq<char>| #[trigger]
            text::texts(r@).contains(x) <==> depends_on(*eco, x, crate_name@),
{
    let mut names: Vec<String> = Vec::new();
    let mut i: usize = 0;
    assert(text::texts(names@) =~= Seq::<Seq<char>>::empty());
    while i < eco.deps.len()
        invariant
            i <= eco.deps.len(),
            text::strictly_ordered(text::texts(names@)),
            forall|x: Seq<char>| #[trigger]
                text::texts(names@).contains(x) <==> exists|j: int|
                    0 <= j < i && (#[trigger] eco.deps@[j]).to_crate@ == crate_name@
                        && eco.deps@[j].from_crate@ == x,
        decreases eco.deps.len() - i,
    {
        let ghost sofar = text::texts(names@);
        let dep = &eco.deps[i];
        if text::same(dep.to_crate.as_str(), crate_name) {
            group::insert_distinct(&mut names, dep.from_crate.clone());
        }
        proof {
            let now = text::texts(names@);
            assert forall|x: Seq<char>| #[trigger] now.contains(x) <==> exists|j: int|
                0 <= j < i + 1 && (#[trigger] eco.deps@[j]).to_crate@ == crate_name@
                    && eco.deps@[j].from_crate@ == x by {
                if now.contains(x) {
                    if sofar.contains(x) {
                        let j = choose|j: int|
                            0 <= j < i && (#[trigger] eco.deps@[j]).to_crate@ == crate_name@
                                && eco.deps@[j].from_crate@ == x;
                        assert(eco.deps@[j].to_crate@ == crate_name@);
                    } else {
                        assert(eco.deps@[i as int].to_crate@ == crate_name@);
                    }
                }
                if exists|j: int|
                    0 <= j < i + 1 && (#[trigger] eco.deps@[j]).to_crate@ == crate_name@
                        && eco.deps@[j].from_crate@ == x {
                    let j = choose|j: int|
                        0 <= j < i + 1 && (#[trigger] eco.deps@[j]).to_crate@ == crate_name@
                            && eco.deps@[j].from_crate@ == x;
                    if j < i {
                        assert(sofar.contains(x));
                    }
                }
            }
        }
        i += 1;
    }
    names
}

/// The directories of the known crates of a list, each once.
pub open spec fn crate_dirs(names: Seq<Seq<char>>, eco: Ecosystem) -> Seq<Seq<char>>
    decreases names.len(),
{
    if names.len() == 0 {
        Seq::empty()
    } else {
        let before = crate_dirs(names.drop_last(), eco);
        if eco.crates.has(names.last()) {
            let dir = path::parent(eco.crates@[names.last()].manifest_path@).unwrap();
            if before.contains(dir) {
                before
            } else {
                before.push(dir)
            }
        } else {
            before
        }
    }
}

/// The directories of the known crates of a list, each once.
pub fn dirs_of_crates(names: &Vec<String>, eco: &Ecosystem) -> (r: Vec<String>)
    requires
        discover::are_placed(text::texts(names@), *eco),
    ensures
        text::texts(r@) == crate_dirs(text::texts(names@), *eco),
{
    let ghost ns = text::texts(names@);
    let mut dirs: Vec<String> = Vec::new();
    let mut i: usize = 0;
    assert(ns.take(0) =~= Seq::<Seq<char>>::empty());
    assert(text::texts(dirs@) =~= Seq::<Seq<char>>::empty());
    while i < names.len()
        invariant
            i <= names.len(),
            ns == text::texts(names@),
            text::texts(dirs@) == crate_dirs(ns.take(i as int), *eco),
        decreases names.len() - i,
    {
        assert(ns.take(i + 1).drop_last() =~= ns.take(i as int));
        assert(ns.take(i + 1).last() == names@[i as int]@);
        if let Some(info) = eco.crates.get(names[i].as_str()) {
            assert(discover::is_placed(ns[i as int], *eco));
            if let Some(dir) = path::parent_of(info.manifest_path.as_str()) {
                proof {
                    text::lemma_lists_texts(dirs@, dir@);
                }
                if !text::holds(&dirs, dir.as_str()) {
                    dirs.push(dir);
                }
            }
        }
        i += 1;
    }
    assert(ns.take(i as int) =~= ns);
    dirs
}

/// The command line of a copter run.
pub fn copter_line(target_dir: &str, dep_dirs: &Vec<String>) -> (r: String)
    ensures
        r@ == "cargo "@ + text::join(
            release::copter_args_for(target_dir@, text::texts(dep_dirs@)),
            " "@,
        ),
{
    let args = release::copter_args(target_dir, dep_dirs);
    let line = text::join_with(&args, " ");
    text::cat2("cargo ", line.as_str())
}

/// A selected repo comes with each of its crates, in the order of their names.
pub proof fn law_all_crates_of_a_repo(eco: Ecosystem, dir: Seq<char>, n: nat)
    ensures
        crates_upto(eco, dir, n) == Seq::new(n, |i: int| i).filter(
            |i: int| eco.crates@[eco.crates.keys()[i]].repo_dir@ == dir,
        ).map_values(
            |i: int| eco.crates@[eco.crates.keys()[i]].name@,
        ),
    decreases n,
{
    reveal(Seq::filter);
    let all = Seq::new(n, |i: int| i);
    if n > 0 {
        law_all_crates_of_a_repo(eco, dir, (n - 1) as nat);
        assert(all.drop_last() =~= Seq::new((n - 1) as nat, |i: int| i));
        assert(all.last() == n - 1);
    } else {
        assert(all =~= Seq::<int>::empty());
    }
}

/// A repo is selected as soon as one crate in it matches the pattern, and only then; without a
/// pattern every repo of a crate is.
pub proof fn law_one_match_selects(eco: Ecosystem, dir: Seq<char>, filter: Option<&str>)
    ensures
        forall|i: int|
            0 <= i < eco.crates.keys().len()
                && eco.crates@[#[trigger] eco.crates.keys()[i]].repo_dir@
                == dir && (filter is None || glob::matches_glob(
                filter.unwrap()@,
                eco.crates@[eco.crates.keys()[i]].name@,
            )) ==> is_selected(eco, dir, filter),
        is_selected(eco, dir, filter) ==> exists|i: int|
            0 <= i < eco.crates.keys().len()
                && eco.crates@[#[trigger] eco.crates.keys()[i]].repo_dir@
                == dir && (filter is None || glob::matches_glob(
                filter.unwrap()@,
                eco.crates@[eco.crates.keys()[i]].name@,
            )),
{
    assert forall|i: int|
        0 <= i < eco.crates.keys().len() && eco.crates@[#[trigger] eco.crates.keys()[i]].repo_dir@
            == dir && (filter is None || glob::matches_glob(
            filter.unwrap()@,
            eco.crates@[eco.crates.keys()[i]].name@,
        )) implies is_selected(eco, dir, filter) by {
        assert(is_wanted(eco.crates@[eco.crates.keys()[i]], dir, filter));
    }
}

/// The reverse dependencies of a crate are the crates that declare a dependency on it, in whichever
/// section and whether or not they are known.
pub proof fn law_reverse_dependencies(eco: Ecosystem, from: Seq<char>, to: Seq<char>)
    ensures
        forall|i: int|
            0 <= i < eco.deps@.len() ==> depends_on(
                eco,
                (#[trigger] eco.deps@[i]).from_crate@,
                eco.deps@[i].to_crate@,
            ),
        depends_on(eco, from, to) ==> exists|i: int|
            0 <= i < eco.deps@.len() && (#[trigger] eco.deps@[i]).from_crate@ == from
                && eco.deps@[i].to_crate@ == to,
{
}

/// A repo has changed where git counts at least one commit. A count that is missing, or is no
/// number, says nothing of the kind.
pub proof fn law_changes_are_counted(stdout: Option<&str>)
    ensures
        stdout is None ==> !says_changed(stdout),
        stdout matches Some(s) ==> (says_changed(stdout) <==> text::parsed_number(
            text::trim(s@),
            usize::MAX as nat,
        ) is Some && text::parsed_number(text::trim(s@), usize::MAX as nat) != Some(0nat)),
{
}

/// The first crate of a repo is one of it, and none before it is.
pub proof fn law_first_crate(eco: Ecosystem, dir: Seq<char>, i: int)
    requires
        0 <= i <= eco.crates.keys().len(),
    ensures
        match first_crate(eco, dir, i) {
            Some(k) => i <= k < eco.crates.keys().len()
                && eco.crates@[eco.crates.keys()[k]].repo_dir@ == dir && forall|j: int|
                i <= j < k ==> eco.crates@[#[trigger] eco.crates.keys()[j]].repo_dir@ != dir,
            None => forall|j: int|
                i <= j < eco.crates.keys().len()
                    ==> eco.crates@[#[trigger] eco.crates.keys()[j]].repo_dir@ != dir,
        },
    decreases eco.crates.keys().len() - i,
{
    if i < eco.crates.keys().len() {
        law_first_crate(eco, dir, i + 1);
    }
}

/// A repo is met in a level where it is asked for, was not met before, and a crate of the level
/// lies in it; it then comes with the directory of that crate's workspace or, where it is in none,
/// of the crate.
pub proof fn law_level_meets_its_repos(
    level: Seq<String>,
    eco: Ecosystem,
    repos: Seq<Seq<char>>,
    seen: Seq<Seq<char>>,
    dir: Seq<char>,
)
    ensures
        firsts(met_in(level, eco, repos, seen).here).contains(dir) <==> repos.contains(dir)
            && !seen.contains(dir) && exists|i: int|
            0 <= i < level.len() && eco.crates.has((#[trigger] level[i])@)
                && eco.crates@[level[i]@].repo_dir@ == dir,
        met_in(level, eco, repos, seen).seen.contains(dir) <==> seen.contains(dir) || firsts(
            met_in(level, eco, repos, seen).here,
        ).contains(dir),
        forall|k: int|
            0 <= k < met_in(level, eco, repos, seen).here.len() ==> exists|i: int|
                0 <= i < level.len() && eco.crates.has((#[trigger] level[i])@)
                    && eco.crates@[level[i]@].repo_dir@ == (#[trigger] met_in(
                    level,
                    eco,
                    repos,
                    seen,
                ).here[k]).0 && met_in(level, eco, repos, seen).here[k].1 == (
                match eco.crates@[level[i]@].workspace_root {
                    Some(w) => path::parent(w@),
                    None => path::parent(eco.crates@[level[i]@].manifest_path@),
                }).unwrap(),
    decreases level.len(),
{
    if level.len() > 0 {
        let rest = level.drop_last();
        law_level_meets_its_repos(rest, eco, repos, seen, dir);
        let before = met_in(rest, eco, repos, seen);
        let now = met_in(level, eco, repos, seen);
        let name = level.last()@;
        assert(level[level.len() - 1] == level.last());
        if eco.crates.has(name) {
            law_level_meets_its_repos(rest, eco, repos, seen, eco.crates@[name].repo_dir@);
        }
        assert forall|i: int| 0 <= i < rest.len() implies rest[i] == level[i] by {}
        if now != before {
            let info = eco.crates@[name];
            assert(firsts(now.here) =~= firsts(before.here).push(info.repo_dir@));
            group::lemma_push_contains(firsts(before.here), info.repo_dir@);
            group::lemma_push_contains(before.seen, info.repo_dir@);
        }
        assert forall|k: int| 0 <= k < now.here.len() implies exists|i: int|
            0 <= i < level.len() && eco.crates.has((#[trigger] level[i])@)
                && eco.crates@[level[i]@].repo_dir@ == (#[trigger] now.here[k]).0
                && now.here[k].1 == (match eco.crates@[level[i]@].workspace_root {
                Some(w) => path::parent(w@),
                None => path::parent(eco.crates@[level[i]@].manifest_path@),
            }).unwrap() by {
            if k < before.here.len() {
                let i = choose|i: int|
                    0 <= i < rest.len() && eco.crates.has((#[trigger] rest[i])@)
                        && eco.crates@[rest[i]@].repo_dir@ == (#[trigger] before.here[k]).0
                        && before.here[k].1 == (match eco.crates@[rest[i]@].workspace_root {
                        Some(w) => path::parent(w@),
                        None => path::parent(eco.crates@[rest[i]@].manifest_path@),
                    }).unwrap();
                assert(level[i] == rest[i]);
            } else {
                assert(level[level.len() - 1]@ == name);
            }
        }
    } else {
        assert(firsts(met_in(level, eco, repos, seen).here) =~= Seq::empty());
    }
}

/// The last lines of a text are its end, as long as was asked or whole.
pub proof fn law_last_lines(s: Seq<char>, n: nat)
    ensures
        last_lines(s, n).len() == if n < text::lines(s).len() {
            n
        } else {
            text::lines(s).len()
        },
        forall|i: int|
            0 <= i < last_lines(s, n).len() ==> #[trigger] last_lines(s, n)[i] == text::lines(
                s,
            )[text::lines(s).len() - last_lines(s, n).len() + i],
{
}

/// The directories of a list of crates are those of the manifests of all its known crates, each
/// once.
pub proof fn law_dirs_of_crates(names: Seq<Seq<char>>, eco: Ecosystem, dir: Seq<char>)
    ensures
        crate_dirs(names, eco).no_duplicates(),
        crate_dirs(names, eco).contains(dir) <==> exists|i: int|
            0 <= i < names.len() && eco.crates.has(#[trigger] names[i]) && path::parent(
                eco.crates@[names[i]].manifest_path@,
            ).unwrap() == dir,
    decreases names.len(),
{
    if names.len() > 0 {
        let rest = names.drop_last();
        law_dirs_of_crates(rest, eco, dir);
        assert(names[names.len() - 1] == names.last());
        assert forall|i: int| 0 <= i < rest.len() implies rest[i] == names[i] by {}
        if eco.crates.has(names.last()) {
            let last = path::parent(eco.crates@[names.last()].manifest_path@).unwrap();
            law_dirs_of_crates(rest, eco, last);
            group::lemma_push_contains(crate_dirs(rest, eco), last);
        }
    }
}

/// Five checks are known without configuration, each by a cargo command of its own.
pub proof fn law_default_checks(check: Seq<char>)
    ensures
        default_line(check) == Some("cargo test"@) <==> check == "test"@,
        default_line(check) == Some("cargo clippy --all-targets -- -D warnings"@) <==> check
            == "clippy"@,
        default_line(check) == Some("cargo fmt -- --check"@) <==> check == "fmt"@,
        default_line(check) == Some("cargo hack check --rust-version"@) <==> check == "msrv"@,
        default_line(check) == Some("cargo semver-checks"@) <==> check == "semver"@,
        default_line(check) is None <==> !seq![
            "test"@,
            "clippy"@,
            "fmt"@,
            "msrv"@,
            "semver"@,
        ].contains(check),
{
    reveal_strlit("test");
    reveal_strlit("clippy");
    reveal_strlit("fmt");
    reveal_strlit("msrv");
    reveal_strlit("semver");
    reveal_strlit("cargo test");
    reveal_strlit("cargo clippy --all-targets -- -D warnings");
    reveal_strlit("cargo fmt -- --check");
    reveal_strlit("cargo hack check --rust-version");
    reveal_strlit("cargo semver-checks");
    assert("test"@[0] == 't' && "clippy"@[0] == 'c' && "fmt"@[0] == 'f' && "msrv"@[0] == 'm'
        && "semver"@[0] == 's');
    assert("cargo test"@[6] == 't' && "cargo clippy --all-targets -- -D warnings"@[6] == 'c'
        && "cargo fmt -- --check"@[6] == 'f' && "cargo hack check --rust-version"@[6] == 'h'
        && "cargo semver-checks"@[6] == 's');
    let all = seq!["test"@, "clippy"@, "fmt"@, "msrv"@, "semver"@];
    assert(all[0] == "test"@ && all[1] == "clippy"@ && all[2] == "fmt"@ && all[3] == "msrv"@
        && all[4] == "semver"@);
}

/// A run stops with a message that names the repo and counts what passed before; a command that
/// could not be run is told by its error.
pub proof fn law_stop_messages(outcome: RunOutcome, dir: Seq<char>, successes: nat)
    ensures
        outcome matches RunOutcome::Failed(code) ==> stop_message(outcome, dir, successes, true)
            == text::decimal(successes) + " passed, 1 failed in "@ + dir,
        outcome matches RunOutcome::Failed(code) ==> stop_message(outcome, dir, successes, false)
            == "failed in "@ + dir + " (exit "@ + (if code < 0 {
            "-"@ + text::decimal((-code) as nat)
        } else {
            text::decimal(code as nat)
        }) + "). "@ + text::decimal(successes) + " passed, 1 failed."@,
        outcome matches RunOutcome::NotRun(e) ==> stop_message(outcome, dir, successes, true)
            == "error in "@ + dir + ": "@ + e@ && stop_message(outcome, dir, successes, false)
            == "error in "@ + dir + ": "@ + e@,
{
}

/// A repo that no level leads to comes behind, in the directory of its first crate, where it has
/// one.
pub proof fn law_remaining_repos(eco: Ecosystem, repos: Seq<Seq<char>>, seen: Seq<Seq<char>>)
    ensures
        remaining(eco, repos, seen) == repos.filter(
            |dir: Seq<char>| !seen.contains(dir) && first_crate(eco, dir, 0) is Some,
        ).map_values(
            |dir: Seq<char>|
                (dir, (match eco.crates@[eco.crates.keys()[first_crate(eco, dir,
                    0).unwrap()]].workspace_root {
                Some(w) => path::parent(w@),
                None => path::parent(eco.crates@[eco.crates.keys()[first_crate(eco, dir,
                    0).unwrap()]].manifest_path@),
            }).unwrap()),
        ),
    decreases repos.len(),
{
    reveal(Seq::filter);
    if repos.len() > 0 {
        law_remaining_repos(eco, repos.drop_last(), seen);
    }
}

/// A repo is met by a level exactly where no level before it has one of its crates: it runs as early
/// as its first crate, and never before.
pub proof fn law_repo_runs_at_its_first_level(
    levels: Seq<Vec<String>>,
    eco: Ecosystem,
    repos: Seq<Seq<char>>,
    n: nat,
    dir: Seq<char>,
)
    requires
        n <= levels.len(),
    ensures
        seen_in(levels, eco, repos, n).contains(dir) <==> repos.contains(dir) && exists|
            k: int,
            i: int,
        |
            #![trigger levels[k]@[i]]
            0 <= k < n && 0 <= i < levels[k]@.len() && eco.crates.has(levels[k]@[i]@)
                && eco.crates@[levels[k]@[i]@].repo_dir@ == dir,
        n < levels.len() ==> (firsts(met_at(levels, eco, repos, n as int)).contains(dir)
            <==> repos.contains(dir) && !seen_in(levels, eco, repos, n).contains(dir) && exists|
            i: int,
        |
            0 <= i < levels[n as int]@.len() && eco.crates.has((#[trigger] levels[n as int]@[i])@)
                && eco.crates@[levels[n as int]@[i]@].repo_dir@ == dir),
    decreases n,
{
    if n > 0 {
        let m = (n - 1) as nat;
        law_repo_runs_at_its_first_level(levels, eco, repos, m, dir);
        law_level_meets_its_repos(
            levels[m as int]@,
            eco,
            repos,
            seen_in(levels, eco, repos, m),
            dir,
        );
        if seen_in(levels, eco, repos, n).contains(dir) && !seen_in(levels, eco, repos, m).contains(
            dir,
        ) {
            let i = choose|i: int|
                0 <= i < levels[m as int]@.len() && eco.crates.has(
                    (#[trigger] levels[m as int]@[i])@,
                ) && eco.crates@[levels[m as int]@[i]@].repo_dir@ == dir;
            assert(eco.crates.has(levels[m as int]@[i]@));
        }
    }
    if n < levels.len() {
        law_level_meets_its_repos(
            levels[n as int]@,
            eco,
            repos,
            seen_in(levels, eco, repos, n),
            dir,
        );
    }
}

} // verus!
