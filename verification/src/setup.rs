//! Cloning all repos of a superworkspace on a new machine.

use vstd::prelude::*;
use vstd::string::*;

use crate::config::{RepoOverride, SuperworkConfig};
use crate::discover::Ecosystem;
use crate::group;
use crate::path;
use crate::text;

verus! {

broadcast use {text::lemma_texts_push, text::lemma_pairs_push};

/// The URL of a GitHub repo by its slug.
pub open spec fn slug_url(slug: Seq<char>, ssh: bool) -> Seq<char> {
    if ssh {
        "git@github.com:"@ + slug + ".git"@
    } else {
        "https://github.com/"@ + slug
    }
}

/// The URL of a GitHub repo by its slug, or by its name in the default org.
pub open spec fn clone_url(slug_or_name: Seq<char>, org: Seq<char>, ssh: bool) -> Seq<char> {
    if slug_or_name.contains('/') {
        slug_url(slug_or_name, ssh)
    } else {
        slug_url(org + "/"@ + slug_or_name, ssh)
    }
}

fn write_url(slug: &str, ssh: bool) -> (r: String)
    ensures
        r@ == slug_url(slug@, ssh),
{
    if ssh {
        text::cat3("git@github.com:", slug, ".git")
    } else {
        text::cat2("https://github.com/", slug)
    }
}

/// Write down the URL that a repo is cloned from.
pub fn format_clone_url(slug_or_name: &str, default_org: &str, ssh: bool) -> (r: String)
    ensures
        r@ == clone_url(slug_or_name@, default_org@, ssh),
{
    if text::contains_char(slug_or_name, '/') {
        write_url(slug_or_name, ssh)
    } else {
        let slug = text::cat3(default_org, "/", slug_or_name);
        write_url(slug.as_str(), ssh)
    }
}

/// What a configured repo is called on GitHub: its slug, else the name of its directory.
pub open spec fn github_name(r: RepoOverride) -> Seq<char> {
    match r.github {
        Some(g) => g@,
        None => match path::file_name(r.dir@) {
            Some(n) => n,
            None => r.dir@,
        },
    }
}

/// The configured repos that have a remote, each with the URL it is cloned from.
pub open spec fn configured(repos: Seq<RepoOverride>, org: Seq<char>, ssh: bool) -> Seq<
    (Seq<char>, Seq<char>),
>
    decreases repos.len(),
{
    if repos.len() == 0 {
        Seq::empty()
    } else {
        let before = configured(repos.drop_last(), org, ssh);
        let r = repos.last();
        if r.no_remote {
            before
        } else {
            before.push((r.dir@, clone_url(github_name(r), org, ssh)))
        }
    }
}

/// Whether a list has a pair for a directory.
pub open spec fn covers(list: Seq<(Seq<char>, Seq<char>)>, dir: Seq<char>) -> bool {
    exists|i: int| 0 <= i < list.len() && (#[trigger] list[i]).0 == dir
}

/// The slug in a URL, or the URL itself.
pub open spec fn slug_in(url: Seq<char>) -> Seq<char> {
    match text::after_prefix(url, "https://github.com/"@) {
        Some(s) => s,
        None => url,
    }
}

/// A list with the repos of the first `n` crates that it does not cover yet.
pub open spec fn with_found(
    start: Seq<(Seq<char>, Seq<char>)>,
    eco: Ecosystem,
    ssh: bool,
    n: nat,
) -> Seq<(Seq<char>, Seq<char>)>
    decreases n,
{
    if n == 0 {
        start
    } else {
        let before = with_found(start, eco, ssh, (n - 1) as nat);
        let info = eco.crates@[eco.crates.keys()[n - 1]];
        if !covers(before, info.repo_dir@) && info.github_url is Some {
            before.push((info.repo_dir@, slug_url(slug_in(info.github_url.unwrap()@), ssh)))
        } else {
            before
        }
    }
}

/// The repos to clone: those that are configured, then those that were found besides.
pub open spec fn repos_to_clone(
    config: SuperworkConfig,
    eco: Option<&Ecosystem>,
    ssh: bool,
) -> Seq<(Seq<char>, Seq<char>)> {
    let start = configured(config.repo@, config.described().default_github_org@, ssh);
    match eco {
        Some(e) => with_found(start, *e, ssh, e.crates.keys().len()),
        None => start,
    }
}

fn covers_dir(list: &Vec<(String, String)>, dir: &str) -> (r: bool)
    ensures
        r == covers(text::pairs(list@), dir@),
{
    let ghost ls = text::pairs(list@);
    let mut i: usize = 0;
    while i < list.len()
        invariant
            i <= list.len(),
            ls == text::pairs(list@),
            forall|j: int| 0 <= j < i ==> (#[trigger] ls[j]).0 != dir@,
        decreases list.len() - i,
    {
        assert(ls[i as int].0 == list@[i as int].0@);
        if text::same(list[i].0.as_str(), dir) {
            return true;
        }
        i += 1;
    }
    false
}

fn list_configured(repos: &Vec<RepoOverride>, org: &str, ssh: bool) -> (r: Vec<(String, String)>)
    ensures
        text::pairs(r@) == configured(repos@, org@, ssh),
{
    let mut out: Vec<(String, String)> = Vec::new();
    let mut i: usize = 0;
    assert(repos@.take(0) =~= Seq::<RepoOverride>::empty());
    assert(text::pairs(out@) =~= Seq::<(Seq<char>, Seq<char>)>::empty());
    while i < repos.len()
        invariant
            i <= repos.len(),
            text::pairs(out@) == configured(repos@.take(i as int), org@, ssh),
        decreases repos.len() - i,
    {
        assert(repos@.take(i + 1).drop_last() =~= repos@.take(i as int));
        let entry = &repos[i];
        if !entry.no_remote {
            let name = match &entry.github {
                Some(g) => g.clone(),
                None => match path::file_name_of(entry.dir.as_str()) {
                    Some(n) => n,
                    None => entry.dir.clone(),
                },
            };
            out.push((entry.dir.clone(), format_clone_url(name.as_str(), org, ssh)));
        }
        i += 1;
    }
    assert(repos@.take(i as int) =~= repos@);
    out
}

/// List the repos to clone, each with its URL: those that are configured, then those of crates
/// that were found besides.
pub fn list_repos(config: &SuperworkConfig, eco: Option<&Ecosystem>, ssh: bool) -> (r: Vec<
    (String, String),
>)
    ensures
        text::pairs(r@) == repos_to_clone(*config, eco, ssh),
{
    let mut out = list_configured(
        &config.repo,
        config.meta().default_github_org.as_str(),
        ssh,
    );
    let ghost start = text::pairs(out@);
    if let Some(eco) = eco {
        let n: usize = eco.crates.len();
        let mut i: usize = 0;
        while i < n
            invariant
                i <= n,
                n == eco.crates.keys().len(),
                text::pairs(out@) == with_found(start, *eco, ssh, i as nat),
            decreases n - i,
        {
            let info = eco.crates.value_at(i);
            if !covers_dir(&out, info.repo_dir.as_str()) {
                if let Some(url) = &info.github_url {
                    let slug = match text::strip_lead(url.as_str(), "https://github.com/") {
                        Some(s) => s,
                        None => url.clone(),
                    };
                    out.push((info.repo_dir.clone(), write_url(slug.as_str(), ssh)));
                }
            }
            i += 1;
        }
    }
    out
}

/// The directories of a list of repos.
pub open spec fn dirs_of(v: Seq<(String, String)>) -> Seq<Seq<char>> {
    v.map_values(|p: (String, String)| p.0@)
}

/// The places of the repos in the order of their directories.
pub fn order_repos(repos: &Vec<(String, String)>) -> (r: Vec<usize>)
    ensures
        group::is_sorting(dirs_of(repos@), r@),
{
    let ghost all = dirs_of(repos@);
    let mut dirs: Vec<String> = Vec::new();
    let mut i: usize = 0;
    assert(text::texts(dirs@) =~= all.take(0));
    while i < repos.len()
        invariant
            i <= repos.len(),
            all == dirs_of(repos@),
            text::texts(dirs@) == all.take(i as int),
        decreases repos.len() - i,
    {
        dirs.push(repos[i].0.clone());
        assert(all.take(i + 1) =~= all.take(i as int).push(repos@[i as int].0@));
        i += 1;
    }
    assert(all.take(i as int) =~= all);
    group::sorted_places(&dirs)
}

/// Each configured repo with a remote is cloned, by its GitHub name or the name of its directory,
/// in the order of the configuration.
pub proof fn law_configured_repos(repos: Seq<RepoOverride>, org: Seq<char>, ssh: bool)
    ensures
        configured(repos, org, ssh) == repos.filter(
            |r: RepoOverride| !r.no_remote,
        ).map_values(
            |r: RepoOverride| (r.dir@, clone_url(match r.github {
                Some(g) => g@,
                None => match path::file_name(r.dir@) {
                    Some(n) => n,
                    None => r.dir@,
                },
            }, org, ssh)),
        ),
    decreases repos.len(),
{
    reveal(Seq::filter);
    if repos.len() > 0 {
        law_configured_repos(repos.drop_last(), org, ssh);
    }
}

/// A repo with an owner in its name is cloned from there, another from the default org; by ssh or
/// by https, as asked.
pub proof fn law_clone_urls(name: Seq<char>, org: Seq<char>)
    ensures
        name.contains('/') ==> clone_url(name, org, true) == "git@github.com:"@ + name + ".git"@
            && clone_url(name, org, false) == "https://github.com/"@ + name,
        !name.contains('/') ==> clone_url(name, org, true) == "git@github.com:"@ + (org + "/"@
            + name) + ".git"@ && clone_url(name, org, false) == "https://github.com/"@ + (org
            + "/"@ + name),
{
}

/// A found repo comes in where no entry has its directory and its URL is known; what was there
/// stays in front, and no directory comes in twice.
pub proof fn law_found_repos_come_behind(
    start: Seq<(Seq<char>, Seq<char>)>,
    eco: Ecosystem,
    ssh: bool,
    n: nat,
    i: int,
)
    requires
        n <= eco.crates.keys().len(),
        0 <= i < n,
    ensures
        start.is_prefix_of(with_found(start, eco, ssh, n)),
        eco.crates@[eco.crates.keys()[i]].github_url is Some ==> covers(
            with_found(start, eco, ssh, n),
            eco.crates@[eco.crates.keys()[i]].repo_dir@,
        ),
        forall|a: int, b: int|
            start.len() <= b < with_found(start, eco, ssh, n).len() && 0 <= a < b ==> (
            #[trigger] with_found(start, eco, ssh, n)[a]).0 != (#[trigger] with_found(
                start,
                eco,
                ssh,
                n,
            )[b]).0,
    decreases n,
{
    let k = (n - 1) as nat;
    let before = with_found(start, eco, ssh, k);
    let now = with_found(start, eco, ssh, n);
    let info = eco.crates@[eco.crates.keys()[n - 1]];
    if i < n - 1 {
        law_found_repos_come_behind(start, eco, ssh, k, i);
    } else if k > 0 {
        law_found_repos_come_behind(start, eco, ssh, k, 0);
    } else {
        assert(before == start);
    }
    let dir = eco.crates@[eco.crates.keys()[i]].repo_dir@;
    if covers(before, dir) {
        let j = choose|j: int| 0 <= j < before.len() && (#[trigger] before[j]).0 == dir;
        assert(now[j] == before[j]);
    }
    if now.len() > before.len() {
        assert(now[before.len() as int].0 == info.repo_dir@);
        assert forall|a: int, b: int| start.len() <= b < now.len() && 0 <= a < b implies (
        #[trigger] now[a]).0 != (#[trigger] now[b]).0 by {
            assert(now[a] == before[a]);
            if b < before.len() {
                assert(now[b] == before[b]);
            }
        }
    }
}

/// A repo that was found is cloned by the slug in its URL, and by the URL itself where that is none
/// of GitHub.
pub proof fn law_slugs_in_urls(slug: Seq<char>, url: Seq<char>)
    ensures
        slug_in("https://github.com/"@ + slug) == slug,
        !"https://github.com/"@.is_prefix_of(url) ==> slug_in(url) == url,
{
    let lead = "https://github.com/"@;
    assert((lead + slug).skip(lead.len() as int) =~= slug);
    assert(lead.is_prefix_of(lead + slug));
}

/// All configured repos with a remote are cloned, and with them every repo of a crate whose URL is
/// known.
pub proof fn law_repos_to_clone(config: SuperworkConfig, eco: Option<&Ecosystem>, ssh: bool, i: int)
    ensures
        0 <= i < config.repo@.len() && !config.repo@[i].no_remote ==> covers(
            repos_to_clone(config, eco, ssh),
            config.repo@[i].dir@,
        ),
        eco matches Some(e) ==> (0 <= i < e.crates.keys().len()
            && e.crates@[e.crates.keys()[i]].github_url is Some ==> covers(
            repos_to_clone(config, eco, ssh),
            e.crates@[e.crates.keys()[i]].repo_dir@,
        )),
        eco is None ==> repos_to_clone(config, eco, ssh).len() == config.repo@.filter(
            |r: RepoOverride| !r.no_remote,
        ).len(),
{
    let org = config.described().default_github_org@;
    let start = configured(config.repo@, org, ssh);
    law_configured_repos(config.repo@, org, ssh);
    if 0 <= i < config.repo@.len() && !config.repo@[i].no_remote {
        lemma_configured_covers(config.repo@, org, ssh, i);
        let k = choose|k: int| 0 <= k < start.len()
            && (#[trigger] start[k]).0 == config.repo@[i].dir@;
        if let Some(e) = eco {
            if e.crates.keys().len() > 0 {
                law_found_repos_come_behind(start, *e, ssh, e.crates.keys().len(), 0);
                assert(repos_to_clone(config, eco, ssh)[k] == start[k]);
            }
        }
    }
    if let Some(e) = eco {
        if 0 <= i < e.crates.keys().len() {
            law_found_repos_come_behind(start, *e, ssh, e.crates.keys().len(), i);
        }
    }
}

proof fn lemma_configured_covers(repos: Seq<RepoOverride>, org: Seq<char>, ssh: bool, i: int)
    requires
        0 <= i < repos.len(),
        !repos[i].no_remote,
    ensures
        covers(configured(repos, org, ssh), repos[i].dir@),
    decreases repos.len(),
{
    let rest = repos.drop_last();
    let before = configured(rest, org, ssh);
    let now = configured(repos, org, ssh);
    if i < rest.len() {
        assert(rest[i] == repos[i]);
        lemma_configured_covers(rest, org, ssh, i);
        let k = choose|k: int| 0 <= k < before.len() && (#[trigger] before[k]).0 == repos[i].dir@;
        assert(now[k] == before[k]);
    } else {
        assert(now[before.len() as int].0 == repos[i].dir@);
    }
}

} // verus!
